use parla::decode::{
    best_option, check_prompt, common_prefix, generation_step, no_room, prefill, room_to_generate,
    score_rounds, thread_count, Generation, PromptError, PER_ROUND,
};
use parla::double::Double;
use parla::local::{BATCH, SEQUENCES};

#[test]
fn common_prefix_stops_at_first_difference() {
    let t = |v: &[i32]| v.to_vec();
    assert_eq!(common_prefix(&t(&[1, 2, 3]), &t(&[1, 2, 4, 5])), 2);
    assert_eq!(common_prefix(&t(&[1, 2]), &t(&[1, 2, 4])), 2);
    assert_eq!(common_prefix(&t(&[9]), &t(&[1])), 0);
    assert_eq!(common_prefix(&t(&[]), &t(&[1])), 0);
}

#[test]
fn what_is_cached_is_not_decoded_again() {
    let (keep, batches) = prefill(&vec![1, 2, 3], &vec![1, 2, 4, 5]);
    assert_eq!(keep, 2);
    let slots: Vec<(i32, i32, bool)> = batches
        .iter()
        .flatten()
        .map(|s| (s.token, s.pos, s.logits))
        .collect();
    assert_eq!(slots, [(4, 2, false), (5, 3, true)]);
    // The last token is always decoded, for its scores.
    let (keep, batches) = prefill(&vec![1, 2, 3], &vec![1, 2, 3]);
    assert_eq!(keep, 2);
    assert_eq!(batches.iter().flatten().count(), 1);
}

#[test]
fn long_prompts_come_in_batches() {
    let tokens: Vec<i32> = (0..(BATCH as i32 * 2 + 5)).collect();
    let (keep, batches) = prefill(&vec![], &tokens);
    assert_eq!(keep, 0);
    assert!(batches.iter().all(|b| b.len() <= BATCH));
    let back: Vec<i32> = batches.iter().flatten().map(|s| s.token).collect();
    assert_eq!(back, tokens);
    let kept: Vec<i32> = batches
        .iter()
        .flatten()
        .filter(|s| s.logits)
        .map(|s| s.pos)
        .collect();
    // The scores after the last token of each batch.
    let b = BATCH as i32;
    assert_eq!(kept, [b - 1, 2 * b - 1, tokens.len() as i32 - 1]);
}

#[test]
fn options_are_scored_side_by_side() {
    let options = vec![vec![10, 11], vec![20], vec![30, 31, 32]];
    let rounds = score_rounds(&options, 100, 2);
    assert_eq!(rounds.len(), 1);
    assert_eq!((rounds[0].first, rounds[0].count), (0, 3));
    let all: Vec<_> = rounds[0]
        .batches
        .iter()
        .flatten()
        .map(|s| (s.option, s.token, s.pos, s.next))
        .collect();
    assert_eq!(
        all,
        [
            (0, 10, 100, 11),
            (0, 11, 101, 2),
            (1, 20, 100, 2),
            (2, 30, 100, 31),
            (2, 31, 101, 32),
            (2, 32, 102, 2)
        ]
    );
    let mut seqs: Vec<i32> = rounds[0]
        .batches
        .iter()
        .flatten()
        .map(|s| s.seq)
        .collect();
    seqs.dedup();
    assert_eq!(seqs, [1, 2, 3]);
}

#[test]
fn many_options_take_several_rounds() {
    let options: Vec<Vec<i32>> = (0..(PER_ROUND as i32 + 3)).map(|n| vec![n]).collect();
    let rounds = score_rounds(&options, 7, 2);
    assert_eq!(rounds.len(), 2);
    assert_eq!((rounds[1].first, rounds[1].count), (PER_ROUND, 3));
    assert!(rounds
        .iter()
        .flat_map(|r| r.batches.iter().flatten())
        .all(|s| s.seq >= 1 && (s.seq as usize) < SEQUENCES as usize));
}

#[test]
fn prompts_must_fit() {
    let options = vec![vec![1, 2], vec![3]];
    assert_eq!(check_prompt(10, &options, 100), Ok(()));
    assert_eq!(check_prompt(0, &options, 100), Err(PromptError::Empty));
    let e = check_prompt(99, &options, 100).unwrap_err();
    assert!(matches!(e, PromptError::TooLong { .. }));
    assert!(e.text().contains("100"), "{}", e.text());
    assert!(room_to_generate(10, 20, 100));
    assert!(!room_to_generate(90, 20, 100));
    assert!(no_room(90, 20, 100).contains("90"));
    assert_eq!(thread_count(0), 1);
    assert_eq!(thread_count(4), 4);
    assert_eq!(thread_count(usize::MAX), i32::MAX);
}

#[test]
fn the_likeliest_option_wins() {
    let d = |x: f64| Double { bits: x.to_bits() };
    assert_eq!(best_option(&vec![d(0.2), d(0.7), d(0.1)]), 1);
    assert_eq!(best_option(&vec![d(1.0)]), 0);
}

#[test]
fn writing_stops_at_the_end_of_the_turn_or_of_the_budget() {
    assert_eq!(generation_step(0, 3, 7, 2, false), Generation::Decode);
    assert_eq!(generation_step(2, 3, 7, 2, false), Generation::Decode);
    assert_eq!(generation_step(3, 3, 7, 2, false), Generation::Stop);
    assert_eq!(generation_step(0, 0, 7, 2, false), Generation::Stop);
    assert_eq!(generation_step(0, 3, 2, 2, false), Generation::Stop);
    assert_eq!(generation_step(0, 3, 7, 2, true), Generation::Stop);
}
