use upside_down::checksum::fletcher16;
use upside_down::cli::{judge, usage_line, verdict};
use upside_down::validator::{basic_checks, check_flag, upside_down_ep};

const ACCEPTED: &[u8] = b"FLAG{ysrever_mees_slliks_ruoy}";

#[test]
fn accepts_the_accepted_candidate() {
    assert_eq!(ACCEPTED.len(), 30);
    assert!(basic_checks(ACCEPTED));
    assert!(check_flag(ACCEPTED));
    assert!(upside_down_ep(ACCEPTED));
}

#[test]
fn rejects_every_single_byte_change() {
    for i in 0..ACCEPTED.len() {
        for b in 0..=255u8 {
            if b == ACCEPTED[i] {
                continue;
            }
            let mut changed = ACCEPTED.to_vec();
            changed[i] = b;
            assert!(!check_flag(&changed), "position {} byte {}", i, b);
        }
    }
}

#[test]
fn rejects_every_other_length() {
    assert!(!check_flag(b""));
    assert!(!check_flag(&ACCEPTED[..29]));
    let mut longer = ACCEPTED.to_vec();
    longer.push(b'}');
    assert!(!check_flag(&longer));
    assert!(!basic_checks(&longer));
    for len in 0..64usize {
        if len != 30 {
            assert!(!upside_down_ep(&vec![b'A'; len]));
        }
    }
}

#[test]
fn rejects_candidates_of_the_right_length() {
    assert!(!check_flag(&[0u8; 30]));
    assert!(!check_flag(&[255u8; 30]));
    assert!(!check_flag(b"FLAG{this_is_not_the_real_one}"));
    assert!(!check_flag(b"flag{ysrever_mees_slliks_ruoy}"));
}

#[test]
fn basic_checks_look_at_repeated_positions_only() {
    assert!(basic_checks(&[7u8; 30]));
    let mut v = [7u8; 30];
    v[0] = 1;
    v[29] = 2;
    assert!(basic_checks(&v));
    for i in [12usize, 17, 24, 19, 20, 8, 10, 14, 15, 5, 28, 7, 11, 25] {
        let mut w = [7u8; 30];
        w[i] = 8;
        assert!(!basic_checks(&w), "position {}", i);
    }
    assert!(!basic_checks(&[7u8; 29]));
    assert!(!basic_checks(&[7u8; 31]));
}

#[test]
fn a_zero_divisor_is_a_rejection() {
    // Positions 7, 11 and 25 hold the divisor of the last remainder check.
    let mut v = ACCEPTED.to_vec();
    v[7] = 0;
    v[11] = 0;
    v[25] = 0;
    assert!(basic_checks(&v));
    assert!(!check_flag(&v));
}

#[test]
fn wrapping_differences_are_taken_modulo_256() {
    // Closing brace two above the opening one, across the wrap.
    let mut v = ACCEPTED.to_vec();
    v[4] = 255;
    v[29] = 1;
    assert!(!check_flag(&v));
}

#[test]
fn every_block_of_the_accepted_candidate_sums_to_its_value() {
    let expected = [4206u32, 39207, 27243, 37899, 44301];
    for k in 0..5 {
        assert_eq!(fletcher16(&ACCEPTED[6 * k..6 * k + 6]), expected[k]);
    }
}

#[test]
fn checksum_values() {
    assert_eq!(fletcher16(b""), 0);
    assert_eq!(fletcher16(b"a"), 24929);
    assert_eq!(fletcher16(b"abcde"), 61640);
    assert_eq!(fletcher16(b"abcdef"), 22304);
    assert_eq!(fletcher16(b"abcdefgh"), 9990);
    assert_eq!(fletcher16(&[255]), 0);
    assert_eq!(fletcher16(&[255, 255]), 0);
    assert_eq!(fletcher16(&[254, 1]), 254);
}

#[test]
fn verdicts() {
    assert_eq!(verdict(true), "Yep, congrats.");
    assert_eq!(verdict(false), "Try again.");
    assert_eq!(judge(ACCEPTED), "Yep, congrats.");
    assert_eq!(judge(b"FLAG{ysrever_mees_slliks_ruoy!"), "Try again.");
    assert_eq!(judge(b"FLAG{this_is_not_the_real_one}"), "Try again.");
    assert_eq!(judge(b""), "Try again.");
}

#[test]
fn usage() {
    assert_eq!(usage_line("upside-down"), "Usage: ./upside-down <flag>");
    assert_eq!(usage_line(""), "Usage: ./ <flag>");
}
