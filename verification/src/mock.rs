//! A stand-in for the daemon, to work on the UI without a microphone or a
//! model.
//!
//! It goes through the states the daemon would, on a timer: it pretends to
//! record, transcribe, think and type, then reports an utterance it made up;
//! now and then it asks for a confirmation or fails. Instants are milliseconds
//! on a clock that only moves forward.
use vstd::prelude::*;

use crate::dbus::{mode_str, State};
use crate::history::{insert, Record, RecordView};
use crate::router::Mode;
use crate::text::{
    concat2, concat3, decimal_text, hex_text, nothing, quoted, same, split_words, without_stops,
};

verus! {

/// What is dictated.
pub const TEXTS: [&'static str; 8] = [
    "Let's move the meeting to Thursday afternoon, I have a conflict in the morning.",
    "The build fails on the release profile because thin LTO drops the plugin symbols.",
    "Can you send me the link to the design doc when you get a chance?",
    "git commit -m \"parlad: confirm destructive commands by voice\"",
    "Thanks for the review, I'll address the comments tonight.",
    "Remind me to buy coffee beans and a new filter tomorrow.",
    "The overlay should hide two seconds after the result flashes.",
    "Sounds good to me, let's ship it.",
];

/// What commands come to.
pub const COMMANDS: [&'static str; 4] = [
    "Launched Firefox",
    "Closed Kate",
    "Muted the microphone",
    "Opened ~/Downloads",
];

/// The applications that are dictated into.
pub const APPS: [&'static str; 5] = [
    "org.kde.konsole",
    "firefox",
    "thunderbird",
    "Slack",
    "org.kde.kate",
];

/// Their windows.
pub const TITLES: [&'static str; 5] = [
    "fish \u{2014} konsole",
    "Mozilla Firefox",
    "Inbox \u{2014} Thunderbird",
    "Slack \u{2014} parla",
    "config.rs \u{2014} Kate",
];

/// Their profiles.
pub const PROFILES: [&'static str; 5] = [
    "Terminals",
    "",
    "Mail and documents",
    "Chat",
    "Code editors",
];

/// What the stand-in pretends to do. A capture that started by itself ends by
/// itself; one that was asked for waits to be stopped.
#[derive(Clone, Copy, Debug, PartialEq, Eq, Structural)]
pub enum Phase {
    Idle { until: u64 },
    Recording { auto_end: bool, until: u64, ticks: u32 },
    Transcribing { until: u64 },
    Thinking { until: u64 },
    Waiting { until: u64 },
    Typing { until: u64 },
}

/// What happened on a tick.
#[derive(Debug)]
pub enum Out {
    Nothing,
    /// The microphone level: how long the capture runs, in ticks, and a draw
    /// for its jitter.
    Level { ticks: u32, draw: u64 },
    State(State, Option<Mode>),
    /// Ask a question while waiting.
    Confirm(Option<Mode>),
    /// An utterance is finished; `failed` says how.
    Finish { record: Record, failed: bool },
}

/// An [`Out`] as sequences.
pub ghost enum OutView {
    Nothing,
    Level { ticks: u32, draw: u64 },
    State(State, Option<Mode>),
    Confirm(Option<Mode>),
    Finish { record: RecordView, failed: bool },
}

impl View for Out {
    type V = OutView;

    open spec fn view(&self) -> OutView {
        match *self {
            Out::Nothing => OutView::Nothing,
            Out::Level { ticks, draw } => OutView::Level { ticks, draw },
            Out::State(s, m) => OutView::State(s, m),
            Out::Confirm(m) => OutView::Confirm(m),
            Out::Finish { record, failed } => OutView::Finish { record: record@, failed },
        }
    }
}

/// What is asked while waiting.
pub const QUESTION: &'static str = "Close 'config.rs \u{2014} Kate'? say yes";

/// What a failure is said to be.
pub const FAILURE: &'static str = "the window lost focus while typing";

/// The stand-in.
#[derive(Debug)]
pub struct Mock {
    pub phase: Phase,
    pub mode: Option<Mode>,
    pub enabled: bool,
    pub last_result: String,
    pub last_result_is_error: bool,
    pub history: Vec<Record>,
    pub counter: u64,
    pub cycle: u32,
    pub rng: u64,
}

/// A [`Mock`] as sequences.
#[verifier::ext_equal]
pub ghost struct MockView {
    pub phase: Phase,
    pub mode: Option<Mode>,
    pub enabled: bool,
    pub last_result: Seq<char>,
    pub last_result_is_error: bool,
    pub history: Seq<RecordView>,
    pub counter: u64,
    pub cycle: u32,
    pub rng: u64,
}

impl View for Mock {
    type V = MockView;

    open spec fn view(&self) -> MockView {
        MockView {
            phase: self.phase,
            mode: self.mode,
            enabled: self.enabled,
            last_result: self.last_result@,
            last_result_is_error: self.last_result_is_error,
            history: crate::history::record_views(self.history@),
            counter: self.counter,
            cycle: self.cycle,
            rng: self.rng,
        }
    }
}

/// The state shown of a phase.
pub open spec fn state_of(m: MockView) -> State {
    if !m.enabled {
        State::Paused
    } else {
        match m.phase {
            Phase::Idle { .. } => State::Idle,
            Phase::Recording { .. } => State::Recording,
            Phase::Transcribing { .. } => State::Transcribing,
            Phase::Thinking { .. } => State::Thinking,
            Phase::Waiting { .. } => State::Waiting,
            Phase::Typing { .. } => State::Typing,
        }
    }
}

/// The generator's next state (xorshift).
pub open spec fn next_rng(r: u64) -> u64 {
    let a = r ^ (r >> 12);
    let b = a ^ (a << 25);
    b ^ (b >> 27)
}

/// A draw of 53 bits from a state of the generator.
pub open spec fn draw_of(r: u64) -> u64 {
    r.wrapping_mul(0x2545_F491_4F6C_DD1D) >> 11
}

/// The weight of the last of the 53 bits that a double keeps of a number.
pub open spec fn last_bit(p: nat) -> nat
    decreases p,
{
    if p < 0x20_0000_0000_0000 {
        1
    } else {
        2 * last_bit(p / 2)
    }
}

/// The double nearest to a number; of two equally near, the one whose last bit
/// is 0.
pub open spec fn nearest(p: nat) -> nat {
    let unit = last_bit(p);
    let (q, r) = (p / unit, p % unit);
    if 2 * r > unit || (2 * r == unit && q % 2 == 1) {
        (q + 1) * unit
    } else {
        q * unit
    }
}

/// A draw as a whole number up to `n`: the draw's share of `n` as doubles
/// multiply, without its decimals.
pub open spec fn scaled(draw: u64, n: nat) -> nat {
    nearest(draw as nat * n) / 0x20_0000_0000_0000
}

/// A draw as the place of one of `n` things.
pub open spec fn place(draw: u64, n: nat) -> nat {
    if scaled(draw, n) < n {
        scaled(draw, n)
    } else {
        (n - 1) as nat
    }
}

/// The number after `n`, from 0 again after the last.
pub open spec fn after32(n: u32) -> u32 {
    if n == u32::MAX {
        0
    } else {
        (n + 1) as u32
    }
}

/// The number after `n`, from 0 again after the last.
pub open spec fn after64(n: u64) -> u64 {
    if n == u64::MAX {
        0
    } else {
        (n + 1) as u64
    }
}

fn draw(rng: &mut u64) -> (r: u64)
    ensures
        *final(rng) == next_rng(*old(rng)),
        r == draw_of(*final(rng)),
        r < 0x20_0000_0000_0000,
{
    let s: u64 = *rng;
    let a: u64 = s ^ (s >> 12);
    let b: u64 = a ^ (a << 25);
    let c: u64 = b ^ (b >> 27);
    *rng = c;
    let m: u64 = c.wrapping_mul(0x2545_F491_4F6C_DD1D);
    assert(m >> 11 < 0x20_0000_0000_0000) by (bit_vector);
    m >> 11
}

fn round(p: u128) -> (r: u128)
    requires
        p <= 0x200_0000_0000_0000_0000,
    ensures
        r == nearest(p as nat),
        r <= 2 * p,
{
    let mut rest: u128 = p;
    let mut unit: u128 = 1;
    while rest >= 0x20_0000_0000_0000
        invariant
            p <= 0x200_0000_0000_0000_0000,
            unit >= 1,
            unit * rest <= p,
            last_bit(p as nat) == unit * last_bit(rest as nat),
        decreases rest,
    {
        let half: u128 = rest / 2;
        assert(unit <= 0x10_0000 && 2 * unit * half <= unit * rest) by (nonlinear_arith)
            requires
                rest >= 0x20_0000_0000_0000,
                half == rest / 2,
                unit >= 1,
                unit * rest <= 0x200_0000_0000_0000_0000,
        ;
        assert(unit * last_bit(rest as nat) == (2 * unit) * last_bit(half as nat)) by (
        nonlinear_arith)
            requires
                last_bit(rest as nat) == 2 * last_bit(half as nat),
        ;
        unit = unit * 2;
        rest = half;
    }
    assert(unit == last_bit(p as nat));
    let q: u128 = p / unit;
    let rem: u128 = p % unit;
    assert(q * unit <= p && (q + 1) * unit == q * unit + unit && unit * 1 <= unit * (rest + 1))
        by (nonlinear_arith)
        requires
            q == p / unit,
            unit >= 1,
            rest >= 0,
    ;
    assert(p > 0 ==> unit <= p || unit == 1) by {
        if unit > 1 {
            lemma_last_bit(p as nat);
        }
    }
    if 2 * rem > unit || (2 * rem == unit && q % 2 == 1) {
        assert(p > 0) by (nonlinear_arith)
            requires
                rem == p % unit,
                2 * rem >= unit,
                unit >= 1,
        ;
        (q + 1) * unit
    } else {
        q * unit
    }
}

proof fn lemma_last_bit(p: nat)
    ensures
        last_bit(p) >= 1,
        p > 0 ==> last_bit(p) <= p,
    decreases p,
{
    if p >= 0x20_0000_0000_0000 {
        lemma_last_bit(p / 2);
    }
}

fn scale(draw: u64, n: u64) -> (r: u64)
    requires
        draw < 0x20_0000_0000_0000,
        n <= 0x10_0000,
    ensures
        r == scaled(draw, n as nat),
        r <= 2 * n,
{
    assert(0 <= draw * n <= 0x20_0000_0000_0000 * n) by (nonlinear_arith)
        requires
            0 <= draw < 0x20_0000_0000_0000,
            0 <= n,
    ;
    let p: u128 = draw as u128 * n as u128;
    (round(p) / 0x20_0000_0000_0000) as u64
}

fn place_of(draw: u64, n: u64) -> (r: usize)
    requires
        draw < 0x20_0000_0000_0000,
        0 < n <= 8,
    ensures
        r == place(draw, n as nat),
        r < n,
{
    let s = scale(draw, n);
    if s < n {
        s as usize
    } else {
        (n - 1) as usize
    }
}

/// What is made up, and the generator's state after it.
pub ghost struct Made {
    pub record: RecordView,
    pub rng: u64,
}

/// A record that is made up for a mode and a time.
pub open spec fn made(rng: u64, counter: u64, mode: Mode, at_ms: u64) -> Made {
    let r1 = next_rng(rng);
    let r2 = next_rng(r1);
    let r3 = next_rng(r2);
    let app = place(draw_of(r2), 5) as int;
    let command = mode == Mode::Command;
    let said = if command {
        COMMANDS@[place(draw_of(r3), 4) as int]@
    } else {
        TEXTS@[place(draw_of(r1), 8) as int]@
    };
    let text = if command {
        crate::text::lowered(said)
    } else {
        said
    };
    let words = crate::text::words(text).len();
    let last = if command {
        next_rng(r3)
    } else {
        r3
    };
    Made {
        record: RecordView {
            id: crate::text::hex(at_ms as nat) + "-"@ + crate::text::hex(after64(counter) as nat),
            at_ms,
            mode: crate::dbus::mode_name(Some(mode)),
            app: APPS@[app]@,
            title: TITLES@[app]@,
            raw: if command {
                text
            } else {
                crate::text::stops_removed(crate::text::lowered(said))
            },
            text,
            profile: PROFILES@[app]@,
            words: words as u32,
            audio_ms: (1500 + (words as u32) * 380) as u64,
            latency_ms: (400 + scaled(draw_of(last), 900)) as u64,
            outcome: if command {
                "command"@
            } else {
                "typed"@
            },
            detail: if command {
                said
            } else {
                Seq::empty()
            },
        },
        rng: last,
    }
}

/// What a tick at `now` does, where `wall_ms` is the time of day for the
/// history.
pub open spec fn ticked(m: MockView, now: u64, wall_ms: u64) -> (MockView, OutView) {
    if !m.enabled {
        (m, OutView::Nothing)
    } else {
        match m.phase {
            Phase::Idle { until } => if now >= until {
                let cycle = after32(m.cycle);
                let mode = Some(
                    if cycle % 3 == 0 {
                        Mode::Command
                    } else {
                        Mode::Dictate
                    },
                );
                (
                    MockView {
                        cycle,
                        mode,
                        phase: Phase::Recording {
                            auto_end: true,
                            until: (now + 3200) as u64,
                            ticks: 0,
                        },
                        ..m
                    },
                    OutView::State(State::Recording, mode),
                )
            } else {
                (m, OutView::Nothing)
            },
            Phase::Recording { auto_end, until, ticks } => if auto_end && now >= until {
                (
                    MockView { phase: Phase::Transcribing { until: (now + 1200) as u64 }, ..m },
                    OutView::State(State::Transcribing, m.mode),
                )
            } else {
                let rng = next_rng(m.rng);
                (
                    MockView {
                        phase: Phase::Recording { auto_end, until, ticks: after32(ticks) },
                        rng,
                        ..m
                    },
                    OutView::Level { ticks: after32(ticks), draw: draw_of(rng) },
                )
            },
            Phase::Transcribing { until } => if now >= until {
                (
                    MockView { phase: Phase::Thinking { until: (now + 1000) as u64 }, ..m },
                    OutView::State(State::Thinking, m.mode),
                )
            } else {
                (m, OutView::Nothing)
            },
            Phase::Thinking { until } => if now >= until {
                if m.mode == Some(Mode::Command) && m.cycle % 6 == 0 {
                    (
                        MockView { phase: Phase::Waiting { until: (now + 3500) as u64 }, ..m },
                        OutView::Confirm(m.mode),
                    )
                } else {
                    (
                        MockView { phase: Phase::Typing { until: (now + 800) as u64 }, ..m },
                        OutView::State(State::Typing, m.mode),
                    )
                }
            } else {
                (m, OutView::Nothing)
            },
            Phase::Waiting { until } => if now >= until {
                (
                    MockView { phase: Phase::Typing { until: (now + 800) as u64 }, ..m },
                    OutView::State(State::Typing, m.mode),
                )
            } else {
                (m, OutView::Nothing)
            },
            Phase::Typing { until } => if now >= until {
                finished(m, now, wall_ms)
            } else {
                (m, OutView::Nothing)
            },
        }
    }
}

/// What the end of an utterance does: it goes into the history, and every
/// fifth one fails.
pub open spec fn finished(m: MockView, now: u64, wall_ms: u64) -> (MockView, OutView) {
    let failed = m.cycle % 5 == 0;
    let mode = match m.mode {
        Some(mode) => mode,
        None => Mode::Dictate,
    };
    let new = made(m.rng, m.counter, mode, wall_ms);
    let record = if failed {
        RecordView { outcome: "error"@, detail: FAILURE@, ..new.record }
    } else {
        new.record
    };
    (
        MockView {
            phase: Phase::Idle { until: (now + 8000) as u64 },
            last_result: if failed {
                FAILURE@
            } else if mode == Mode::Command {
                record.detail
            } else {
                "typed "@ + crate::text::decimal(record.words as nat) + " words"@
            },
            last_result_is_error: failed,
            history: m.history.push(record),
            counter: after64(m.counter),
            rng: new.rng,
            ..m
        },
        OutView::Finish { record, failed },
    )
}

/// What is answered to a capture while the stand-in is switched off.
pub const DISABLED: &'static str = "parla is disabled";

/// What is answered to a second capture.
pub const ALREADY_RUNNING: &'static str = "a capture is already running";

/// What is answered to the end of a capture that does not run.
pub const NOT_RECORDING: &'static str = "nothing is recording";

/// What is answered to a cancel with nothing going on.
pub const NOTHING_TO_CANCEL: &'static str = "nothing to cancel";

impl Mock {
    /// The stand-in at its start.
    pub fn new(now: u64, rng: u64) -> (r: Mock)
        requires
            now <= u64::MAX - 10_000,
        ensures
            r@ == (MockView {
                phase: Phase::Idle { until: (now + 4000) as u64 },
                mode: None,
                enabled: true,
                last_result: Seq::empty(),
                last_result_is_error: false,
                history: Seq::empty(),
                counter: 0,
                cycle: 0,
                rng,
            }),
    {
        let r = Mock {
            phase: Phase::Idle { until: now + 4000 },
            mode: None,
            enabled: true,
            last_result: nothing(),
            last_result_is_error: false,
            history: Vec::new(),
            counter: 0,
            cycle: 0,
            rng,
        };
        assert(r@.history =~= Seq::<RecordView>::empty());
        r
    }

    /// The state shown on the bus.
    pub fn state(&self) -> (r: State)
        ensures
            r == state_of(self@),
    {
        if !self.enabled {
            return State::Paused;
        }
        match self.phase {
            Phase::Idle { .. } => State::Idle,
            Phase::Recording { .. } => State::Recording,
            Phase::Transcribing { .. } => State::Transcribing,
            Phase::Thinking { .. } => State::Thinking,
            Phase::Waiting { .. } => State::Waiting,
            Phase::Typing { .. } => State::Typing,
        }
    }

    /// The mode shown on the bus: none while idle.
    pub fn shown_mode(&self) -> (r: Option<Mode>)
        ensures
            r == if self.phase is Idle {
                None
            } else {
                self.mode
            },
    {
        match self.phase {
            Phase::Idle { .. } => None,
            _ => self.mode,
        }
    }

    /// Make up a record for `mode` at `at_ms`.
    pub fn fabricate(&mut self, mode: Mode, at_ms: u64) -> (r: Record)
        ensures
            r@ == made(old(self)@.rng, old(self)@.counter, mode, at_ms).record,
            final(self)@ == (MockView {
                rng: made(old(self)@.rng, old(self)@.counter, mode, at_ms).rng,
                counter: after64(old(self)@.counter),
                ..old(self)@
            }),
    {
        let d1 = draw(&mut self.rng);
        let d2 = draw(&mut self.rng);
        let t = place_of(d1, 8);
        let a = place_of(d2, 5);
        let (outcome, detail, text, raw) = match mode {
            Mode::Command => {
                let d3 = draw(&mut self.rng);
                let c = place_of(d3, 4);
                let said = COMMANDS[c];
                let low = crate::text::lower(said);
                ("command", said.to_string(), low.clone(), low)
            },
            Mode::Dictate => {
                let said = TEXTS[t];
                let low = crate::text::lower(said);
                let raw = without_stops(low.as_str());
                ("typed", nothing(), said.to_string(), raw)
            },
        };
        let words: u32 = split_words(text.as_str()).len() as u32;
        let d = draw(&mut self.rng);
        let counter: u64 = if self.counter == u64::MAX {
            0
        } else {
            self.counter + 1
        };
        self.counter = counter;
        let when = hex_text(at_ms);
        let number = hex_text(counter);
        Record {
            id: concat3(when.as_str(), "-", number.as_str()),
            at_ms,
            mode: mode_str(Some(mode)).to_string(),
            app: APPS[a].to_string(),
            title: TITLES[a].to_string(),
            raw,
            text,
            profile: PROFILES[a].to_string(),
            words,
            audio_ms: 1500 + words as u64 * 380,
            latency_ms: 400 + scale(d, 900),
            outcome: outcome.to_string(),
            detail,
        }
    }

    /// What a tick at `now` does.
    pub fn tick(&mut self, now: u64, wall_ms: u64) -> (r: Out)
        requires
            now <= u64::MAX - 10_000,
        ensures
            final(self)@ == ticked(old(self)@, now, wall_ms).0,
            r@ == ticked(old(self)@, now, wall_ms).1,
    {
        if !self.enabled {
            return Out::Nothing;
        }
        match self.phase {
            Phase::Idle { until } => {
                if now < until {
                    return Out::Nothing;
                }
                self.cycle = if self.cycle == u32::MAX {
                    0
                } else {
                    self.cycle + 1
                };
                self.mode = Some(
                    if self.cycle % 3 == 0 {
                        Mode::Command
                    } else {
                        Mode::Dictate
                    },
                );
                self.phase = Phase::Recording { auto_end: true, until: now + 3200, ticks: 0 };
                Out::State(State::Recording, self.mode)
            },
            Phase::Recording { auto_end, until, ticks } => {
                if auto_end && now >= until {
                    self.phase = Phase::Transcribing { until: now + 1200 };
                    Out::State(State::Transcribing, self.mode)
                } else {
                    let ticks: u32 = if ticks == u32::MAX {
                        0
                    } else {
                        ticks + 1
                    };
                    let d = draw(&mut self.rng);
                    self.phase = Phase::Recording { auto_end, until, ticks };
                    Out::Level { ticks, draw: d }
                }
            },
            Phase::Transcribing { until } => {
                if now < until {
                    return Out::Nothing;
                }
                self.phase = Phase::Thinking { until: now + 1000 };
                Out::State(State::Thinking, self.mode)
            },
            Phase::Thinking { until } => {
                if now < until {
                    return Out::Nothing;
                }
                if self.mode == Some(Mode::Command) && self.cycle % 6 == 0 {
                    self.phase = Phase::Waiting { until: now + 3500 };
                    Out::Confirm(self.mode)
                } else {
                    self.phase = Phase::Typing { until: now + 800 };
                    Out::State(State::Typing, self.mode)
                }
            },
            Phase::Waiting { until } => {
                if now < until {
                    return Out::Nothing;
                }
                self.phase = Phase::Typing { until: now + 800 };
                Out::State(State::Typing, self.mode)
            },
            Phase::Typing { until } => {
                if now < until {
                    return Out::Nothing;
                }
                self.finish(now, wall_ms)
            },
        }
    }

    fn finish(&mut self, now: u64, wall_ms: u64) -> (r: Out)
        requires
            now <= u64::MAX - 10_000,
        ensures
            final(self)@ == finished(old(self)@, now, wall_ms).0,
            r@ == finished(old(self)@, now, wall_ms).1,
    {
        let failed = self.cycle % 5 == 0;
        let mode = match self.mode {
            Some(mode) => mode,
            None => Mode::Dictate,
        };
        let mut record = self.fabricate(mode, wall_ms);
        self.phase = Phase::Idle { until: now + 8000 };
        self.last_result_is_error = failed;
        if failed {
            record.outcome = "error".to_string();
            record.detail = FAILURE.to_string();
            self.last_result = FAILURE.to_string();
        } else {
            self.last_result = match mode {
                Mode::Command => record.detail.clone(),
                Mode::Dictate => {
                    let n = decimal_text(record.words as u64);
                    concat3("typed ", n.as_str(), " words")
                },
            };
        }
        let ghost before = self.history@;
        self.history.push(record.copy());
        assert(crate::history::record_views(self.history@) =~= crate::history::record_views(
            before,
        ).push(record@));
        Out::Finish { record, failed }
    }

    /// A capture asked for over the bus, by the mode's name.
    pub fn start(&mut self, mode: &str, now: u64) -> (r: Result<Mode, String>)
        requires
            now <= u64::MAX - 40_000,
        ensures
            match r {
                Ok(m) => mode@ == crate::dbus::mode_name(Some(m)) && old(self).enabled && old(
                    self,
                ).phase is Idle && final(self)@ == (MockView {
                    mode: Some(m),
                    phase: Phase::Recording {
                        auto_end: false,
                        until: (now + 30_000) as u64,
                        ticks: 0,
                    },
                    ..old(self)@
                }),
                Err(e) => final(self)@ == old(self)@ && if mode@ != "dictate"@ && mode@
                    != "command"@ {
                    e@ == "unknown mode "@ + crate::text::debug_text(mode@)
                } else if !old(self).enabled {
                    e@ == DISABLED@
                } else {
                    !(old(self).phase is Idle) && e@ == ALREADY_RUNNING@
                },
            },
    {
        let wanted = if same(mode, "dictate") {
            Mode::Dictate
        } else if same(mode, "command") {
            Mode::Command
        } else {
            let shown = quoted(mode);
            return Err(concat2("unknown mode ", shown.as_str()));
        };
        if !self.enabled {
            return Err(DISABLED.to_string());
        }
        match self.phase {
            Phase::Idle { .. } => {},
            _ => {
                return Err(ALREADY_RUNNING.to_string());
            },
        }
        self.mode = Some(wanted);
        self.phase = Phase::Recording { auto_end: false, until: now + 30_000, ticks: 0 };
        Ok(wanted)
    }

    /// The end of a capture asked for over the bus.
    pub fn stop(&mut self, now: u64) -> (r: Result<Option<Mode>, String>)
        requires
            now <= u64::MAX - 10_000,
        ensures
            match r {
                Ok(m) => old(self).phase is Recording && m == old(self).mode && final(self)@ == (
                MockView {
                    phase: Phase::Transcribing { until: (now + 1200) as u64 },
                    ..old(self)@
                }),
                Err(e) => !(old(self).phase is Recording) && e@ == NOT_RECORDING@ && final(self)@
                    == old(self)@,
            },
    {
        match self.phase {
            Phase::Recording { .. } => {
                self.phase = Phase::Transcribing { until: now + 1200 };
                Ok(self.mode)
            },
            _ => Err(NOT_RECORDING.to_string()),
        }
    }

    /// Whatever goes on is cancelled over the bus.
    pub fn cancel(&mut self, now: u64) -> (r: Result<(), String>)
        requires
            now <= u64::MAX - 10_000,
        ensures
            match r {
                Ok(_) => !(old(self).phase is Idle) && final(self)@ == (MockView {
                    phase: Phase::Idle { until: (now + 8000) as u64 },
                    ..old(self)@
                }),
                Err(e) => old(self).phase is Idle && e@ == NOTHING_TO_CANCEL@ && final(self)@
                    == old(self)@,
            },
    {
        match self.phase {
            Phase::Idle { .. } => Err(NOTHING_TO_CANCEL.to_string()),
            _ => {
                self.phase = Phase::Idle { until: now + 8000 };
                Ok(())
            },
        }
    }

    /// The switch, over the bus; says whether it moved.
    pub fn set_enabled(&mut self, on: bool, now: u64) -> (r: bool)
        requires
            now <= u64::MAX - 10_000,
        ensures
            r == (old(self).enabled != on),
            final(self)@ == (MockView {
                enabled: on,
                phase: if on {
                    old(self).phase
                } else {
                    Phase::Idle { until: (now + 3000) as u64 }
                },
                ..old(self)@
            }),
    {
        let moved = self.enabled != on;
        self.enabled = on;
        if !on {
            self.phase = Phase::Idle { until: now + 3000 };
        }
        moved
    }
}

/// The states come round: a capture is transcribed before anything is thought
/// or typed, and only typing brings an utterance.
pub proof fn law_phases_follow_one_another(m: MockView, now: u64, wall_ms: u64)
    ensures
        ({
            let after = ticked(m, now, wall_ms).0.phase;
            match m.phase {
                Phase::Idle { .. } => after is Idle || after is Recording,
                Phase::Recording { .. } => after is Recording || after is Transcribing,
                Phase::Transcribing { .. } => after is Transcribing || after is Thinking,
                Phase::Thinking { .. } => after is Thinking || after is Waiting || after is Typing,
                Phase::Waiting { .. } => after is Waiting || after is Typing,
                Phase::Typing { .. } => after is Typing || after is Idle,
            }
        }),
        ticked(m, now, wall_ms).1 is Finish ==> m.phase is Typing,
        ticked(m, now, wall_ms).0.history.len() == m.history.len() + if ticked(
            m,
            now,
            wall_ms,
        ).1 is Finish {
            1int
        } else {
            0int
        },
{
}

/// A capture that was asked for goes on until it is stopped or cancelled.
pub proof fn law_asked_capture_waits(m: MockView, now: u64, wall_ms: u64)
    requires
        m.enabled,
        m.phase matches Phase::Recording { auto_end, .. } && !auto_end,
    ensures
        ticked(m, now, wall_ms).0.phase is Recording,
{
}

/// Milliseconds in a day.
pub const DAY: u64 = 86_400_000;

/// Draws below this make a command of a made-up utterance: fifteen in a
/// hundred.
pub const COMMAND_SHARE: u64 = 1_351_079_888_211_149;

/// The history with one more made-up record: the `k`th of the day `back` days
/// ago.
pub open spec fn with_one(m: MockView, now: u64, back: nat, k: nat) -> MockView {
    let r1 = next_rng(m.rng);
    let r2 = next_rng(r1);
    let at = (now - back * DAY - k * 1_800_000 - scaled(draw_of(r1), 600_000)) as u64;
    let mode = if draw_of(r2) < COMMAND_SHARE {
        Mode::Command
    } else {
        Mode::Dictate
    };
    let new = made(r2, m.counter, mode, at);
    MockView {
        rng: new.rng,
        counter: after64(m.counter),
        history: crate::history::with_record(m.history, new.record),
        ..m
    }
}

/// The history with the records of a day from number `k` to number `n`.
pub open spec fn with_day(m: MockView, now: u64, back: nat, k: nat, n: nat) -> MockView
    decreases n - k,
{
    if k >= n {
        m
    } else {
        with_day(with_one(m, now, back, k), now, back, k + 1, n)
    }
}

/// The history with the records of the day `back` days ago: few on the last two
/// days of each week, more on the others.
pub open spec fn with_back(m: MockView, now: u64, back: nat) -> MockView {
    if back % 7 >= 5 {
        with_day(m, now, back, 0, 1)
    } else {
        let rng = next_rng(m.rng);
        with_day(MockView { rng, ..m }, now, back, 0, 3 + scaled(draw_of(rng), 6))
    }
}

/// The history with all days from `back` days ago.
pub open spec fn with_days(m: MockView, now: u64, back: nat) -> MockView
    decreases back,
{
    let day = with_back(m, now, back);
    if back == 0 {
        day
    } else {
        with_days(day, now, (back - 1) as nat)
    }
}

impl Mock {
    fn seed_one(&mut self, now: u64, back: u64, k: u64)
        requires
            back < 30,
            k < 16,
            now >= 31 * DAY,
        ensures
            final(self)@ == with_one(old(self)@, now, back as nat, k as nat),
    {
        let ghost before = self@;
        let d1 = draw(&mut self.rng);
        let s = scale(d1, 600_000);
        let at: u64 = now - back * DAY - k * 1_800_000 - s;
        let d2 = draw(&mut self.rng);
        let mode = if d2 < COMMAND_SHARE {
            Mode::Command
        } else {
            Mode::Dictate
        };
        let r = self.fabricate(mode, at);
        insert(&mut self.history, r);
    }

    fn seed_day(&mut self, now: u64, back: u64, n: u64)
        requires
            back < 30,
            n < 16,
            now >= 31 * DAY,
        ensures
            final(self)@ == with_day(old(self)@, now, back as nat, 0, n as nat),
    {
        let ghost whole = with_day(self@, now, back as nat, 0, n as nat);
        let mut k: u64 = 0;
        while k < n
            invariant
                k <= n < 16,
                back < 30,
                now >= 31 * DAY,
                with_day(self@, now, back as nat, k as nat, n as nat) == whole,
            decreases n - k,
        {
            self.seed_one(now, back, k);
            k = k + 1;
        }
    }

    fn seed_back(&mut self, now: u64, back: u64)
        requires
            back < 30,
            now >= 31 * DAY,
        ensures
            final(self)@ == with_back(old(self)@, now, back as nat),
    {
        if back % 7 >= 5 {
            self.seed_day(now, back, 1);
        } else {
            let d = draw(&mut self.rng);
            let n: u64 = 3 + scale(d, 6);
            self.seed_day(now, back, n);
        }
    }

    fn seed_from(&mut self, now: u64, back: u64)
        requires
            back < 30,
            now >= 31 * DAY,
        ensures
            final(self)@ == with_days(old(self)@, now, back as nat),
        decreases back,
    {
        self.seed_back(now, back);
        if back > 0 {
            self.seed_from(now, back - 1);
        }
    }

    /// Make up a month of history, in the order of time.
    pub fn seed(&mut self, now: u64)
        requires
            now >= 31 * DAY,
        ensures
            final(self)@ == with_days(old(self)@, now, 29),
    {
        self.seed_from(now, 29);
    }
}

/// A made-up history stands in the order of time.
pub proof fn law_seeded_history_is_in_order(m: MockView, now: u64, back: nat)
    requires
        crate::history::in_order(m.history),
    ensures
        crate::history::in_order(with_days(m, now, back).history),
    decreases back,
{
    let rng = next_rng(m.rng);
    lemma_day_in_order(m, now, back, 0, 1);
    lemma_day_in_order(MockView { rng, ..m }, now, back, 0, 3 + scaled(draw_of(rng), 6));
    if back > 0 {
        law_seeded_history_is_in_order(with_back(m, now, back), now, (back - 1) as nat);
    }
}

proof fn lemma_day_in_order(m: MockView, now: u64, back: nat, k: nat, n: nat)
    requires
        crate::history::in_order(m.history),
    ensures
        crate::history::in_order(with_day(m, now, back, k, n).history),
    decreases n - k,
{
    if k < n {
        let one = with_one(m, now, back, k);
        let r1 = next_rng(m.rng);
        let r2 = next_rng(r1);
        let at = (now - back * DAY - k * 1_800_000 - scaled(draw_of(r1), 600_000)) as u64;
        let mode = if draw_of(r2) < COMMAND_SHARE {
            Mode::Command
        } else {
            Mode::Dictate
        };
        crate::history::law_order_is_kept(m.history, made(r2, m.counter, mode, at).record);
        lemma_day_in_order(one, now, back, k + 1, n);
    }
}

/// While the stand-in is switched off a tick changes nothing, and what is
/// shown is that it pauses.
pub proof fn law_switched_off_stands_still(m: MockView, now: u64, wall_ms: u64)
    ensures
        !m.enabled ==> ticked(m, now, wall_ms) == (m, OutView::Nothing),
        !m.enabled <==> state_of(m) is Paused,
        m.enabled ==> (state_of(m) is Idle <==> m.phase is Idle) && (state_of(m) is Recording
            <==> m.phase is Recording) && (state_of(m) is Transcribing <==> m.phase is Transcribing)
            && (state_of(m) is Thinking <==> m.phase is Thinking) && (state_of(m) is Waiting
            <==> m.phase is Waiting) && (state_of(m) is Typing <==> m.phase is Typing),
{
}

/// No phase ends before its time, and each ends when it comes.
pub proof fn law_phases_end_in_time(m: MockView, now: u64, wall_ms: u64)
    requires
        m.enabled,
    ensures
        m.phase matches Phase::Idle { until } ==> (ticked(m, now, wall_ms).0.phase is Idle <==> now
            < until),
        m.phase matches Phase::Recording { auto_end, until, .. } ==> (ticked(
            m,
            now,
            wall_ms,
        ).0.phase is Recording <==> !auto_end || now < until),
        m.phase matches Phase::Transcribing { until } ==> (ticked(
            m,
            now,
            wall_ms,
        ).0.phase is Transcribing <==> now < until),
        m.phase matches Phase::Thinking { until } ==> (ticked(m, now, wall_ms).0.phase is Thinking
            <==> now < until),
        m.phase matches Phase::Waiting { until } ==> (ticked(m, now, wall_ms).0.phase is Waiting
            <==> now < until),
        m.phase matches Phase::Typing { until } ==> (ticked(m, now, wall_ms).0.phase is Typing
            <==> now < until),
{
}

/// What comes out of a finished utterance is what goes into the history: it
/// is shown as an error exactly where its record is one, and a made-up record
/// is of the mode it was made for and the time it was made at.
pub proof fn law_finished_utterances_are_kept(m: MockView, now: u64, wall_ms: u64)
    ensures
        ({
            let (after, out) = finished(m, now, wall_ms);
            &&& out matches OutView::Finish { record, failed }
            &&& after.history == m.history.push(out->record)
            &&& after.last_result_is_error == out->failed
            &&& out->failed ==> out->record.outcome == "error"@ && after.last_result
                == out->record.detail
            &&& !out->failed && m.mode == Some(Mode::Command) ==> out->record.outcome == "command"@
                && after.last_result == out->record.detail
            &&& !out->failed && m.mode == Some(Mode::Dictate) ==> out->record.outcome == "typed"@
            &&& out->record.at_ms == wall_ms
            &&& m.mode is Some ==> out->record.mode == crate::dbus::mode_name(m.mode)
            &&& after.enabled == m.enabled
            &&& after.phase is Idle
        }),
{
}

/// The captures the stand-in begins by itself end by themselves, every third
/// is a command, and every fifth utterance fails.
pub proof fn law_every_fifth_fails(m: MockView, now: u64, wall_ms: u64)
    ensures
        finished(m, now, wall_ms).1->failed <==> m.cycle % 5 == 0,
        m.enabled && m.cycle < u32::MAX && (m.phase matches Phase::Idle { until } && now >= until)
            ==> {
            let after = ticked(m, now, wall_ms).0;
            &&& after.cycle == m.cycle + 1
            &&& after.phase matches Phase::Recording { auto_end, .. } && auto_end
            &&& after.mode == Some(Mode::Command) <==> after.cycle % 3 == 0
            &&& after.mode == Some(Mode::Dictate) <==> after.cycle % 3 != 0
        },
        m.enabled && !(m.phase is Idle) ==> ticked(m, now, wall_ms).0.cycle == m.cycle && ticked(
            m,
            now,
            wall_ms,
        ).0.mode == m.mode,
{
}

/// Only a command is ever asked about, and only every sixth time.
pub proof fn law_only_commands_are_asked_about(m: MockView, now: u64, wall_ms: u64)
    ensures
        ticked(m, now, wall_ms).1 is Confirm ==> m.mode == Some(Mode::Command) && m.cycle % 6 == 0
            && m.phase is Thinking,
        m.enabled && m.mode == Some(Mode::Command) && m.cycle % 6 == 0 && (
        m.phase matches Phase::Thinking { until } && now >= until) ==> ticked(
            m,
            now,
            wall_ms,
        ).0.phase is Waiting,
{
}

} // verus!
