use bench_kernels::lcg::lcg_next;
use bench_kernels::lcg::LCG_MULTIPLIER;

#[test]
fn lcg_first_states_from_seed_one() {
    let mut state = 1u64;
    assert_eq!(lcg_next(&mut state), 6364136223846793006);
    assert_eq!(state, 6364136223846793006);
    assert_eq!(lcg_next(&mut state), 13885033948157127959);
    assert_eq!(lcg_next(&mut state), 14678909342070756876);
    assert_eq!(state, 14678909342070756876);
}

#[test]
fn lcg_from_zero_gives_one() {
    let mut state = 0u64;
    assert_eq!(lcg_next(&mut state), 1);
    assert_eq!(lcg_next(&mut state), LCG_MULTIPLIER + 1);
}

#[test]
fn lcg_wraps_around() {
    let mut state = u64::MAX;
    let expected = u64::MAX.wrapping_mul(6364136223846793005).wrapping_add(1);
    assert_eq!(lcg_next(&mut state), expected);
    assert_eq!(expected, 12082607849862758612);
}
