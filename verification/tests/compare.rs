use rebuilderd::compare::{compare_files, Action, Comparison, Outcome};
use rebuilderd::rpm::{rpm_body_offset, RPM_HEADER_MAGIC, RPM_LEAD_MAGIC, RPM_LEAD_SIZE};

/// An rpm with a signature header of `sig_entries` entries pointing into
/// `sig_data`, followed by `body`.
fn fake_rpm(sig_entries: u32, sig_data: &[u8], body: &[u8]) -> Vec<u8> {
    let mut rpm = Vec::new();
    rpm.extend_from_slice(&RPM_LEAD_MAGIC);
    rpm.resize(RPM_LEAD_SIZE, 0);

    rpm.extend_from_slice(&RPM_HEADER_MAGIC);
    rpm.extend_from_slice(&[0x01, 0, 0, 0, 0]);
    rpm.extend_from_slice(&sig_entries.to_be_bytes());
    rpm.extend_from_slice(&(sig_data.len() as u32).to_be_bytes());
    rpm.resize(rpm.len() + sig_entries as usize * 16, 0);
    rpm.extend_from_slice(sig_data);
    rpm.resize(rpm.len().next_multiple_of(8), 0);

    rpm.extend_from_slice(body);
    rpm
}

/// Runs a comparison that reads at most `chunk` bytes of the first file at once.
fn run(offset: u64, a: &[u8], b: &[u8], chunk: usize) -> (Outcome, usize) {
    let mut comparison = Comparison::new(offset);
    let (mut i, mut j, mut reads) = (0, 0, 0);
    loop {
        match comparison.action() {
            Action::ReadFirst => {
                let n = chunk.min(a.len() - i);
                comparison.step(&a[i..i + n]);
                i += n;
            }
            Action::ReadSecondExact(n) => {
                let n = n.min(b.len() - j);
                comparison.step(&b[j..j + n]);
                j += n;
            }
            Action::ReadSecond => {
                comparison.step(&b[j..]);
                j = b.len();
            }
            Action::Done(outcome) => return (outcome, reads),
        }
        reads += 1;
    }
}

#[test]
fn compare_files_equal() {
    assert!(compare_files(b"fn main() {}\n", b"fn main() {}\n"));
    assert!(compare_files(b"", b""));
}

#[test]
fn compare_files_not_equal1() {
    assert!(!compare_files(b"fn main() {}\n", b"[package]\n"));
    assert!(!compare_files(b"fn main() {}\n", b""));
}

#[test]
fn compare_files_not_equal2() {
    assert!(!compare_files(b"[package]\n", b"fn main() {}\n"));
    assert!(!compare_files(b"", b"fn main() {}\n"));
}

#[test]
fn compare_large_files_equal() {
    let a = vec![0u8; 4096 * 100];
    let b = vec![0u8; 4096 * 100];
    assert!(compare_files(&a, &b));
}

#[test]
fn compare_large_files_not_equal() {
    let a = vec![0u8; 4096 * 100];
    let b = vec![1u8; 4096 * 100];
    assert!(!compare_files(&a, &b));
}

#[test]
fn compare_files_that_differ_in_the_last_byte() {
    let a = vec![0u8; 4096 * 2 + 1];
    let mut b = a.clone();
    *b.last_mut().unwrap() = 1;
    assert!(!compare_files(&a, &b));
    assert!(!compare_files(&a, &a[..4096 * 2]));
    assert!(!compare_files(&a[..4096 * 2], &a));
}

#[test]
fn rpm_body_offset_of_non_rpm() {
    assert_eq!(rpm_body_offset(b""), 0);
    assert_eq!(rpm_body_offset(b"ohai"), 0);
    // a truncated lead
    assert_eq!(rpm_body_offset(b"\xed\xab\xee\xdb"), 0);
}

#[test]
fn rpm_body_offset_skips_signature_header() {
    let rpm = fake_rpm(2, b"some signature", b"payload");
    // 96 lead + 16 intro + 2 index entries + 14 bytes of data, padded to 8
    assert_eq!(rpm_body_offset(&rpm), 160);
    assert_eq!(&rpm[160..], b"payload");
}

#[test]
fn rpm_body_offset_needs_the_whole_intro_and_no_more() {
    let rpm = fake_rpm(2, b"some signature", b"payload");
    assert_eq!(rpm_body_offset(&rpm[..112]), 160);
    assert_eq!(rpm_body_offset(&rpm[..111]), 0);
    let mut other = rpm.clone();
    other[97] = 0;
    assert_eq!(rpm_body_offset(&other), 0);
}

#[test]
fn rpm_body_offset_of_the_largest_header() {
    let mut rpm = fake_rpm(0, b"", b"");
    for byte in &mut rpm[104..112] {
        *byte = 0xff;
    }
    assert_eq!(rpm_body_offset(&rpm), 73014444128);
    // nothing of such a file is left to compare
    assert!(compare_files(&rpm, b""));
}

#[test]
fn compare_rpms_differing_only_in_signature() {
    // a signed package carries more signature tags than the rebuild of it
    let a = fake_rpm(3, b"signed by the distro", b"identical body");
    let b = fake_rpm(1, b"", b"identical body");
    assert!(compare_files(&a, &b));
}

#[test]
fn compare_rpms_differing_in_body() {
    let a = fake_rpm(3, b"signature", b"one body");
    let b = fake_rpm(1, b"", b"other body");
    assert!(!compare_files(&a, &b));
}

#[test]
fn comparison_outcomes() {
    for chunk in 1..8 {
        assert_eq!(run(0, b"abcdef", b"abcdef", chunk).0, Outcome::Identical);
        assert_eq!(run(7, b"abcdef", b"abcdefg", chunk).0, Outcome::SecondLonger);
        assert_eq!(run(7, b"abcdef", b"abcde", chunk).0, Outcome::SecondShorter);
        assert_eq!(run(7, b"abcdef", b"abcxyz", chunk).0, Outcome::DiffersAt(10));
    }
}

#[test]
fn comparison_tells_how_far_it_has_come() {
    let mut comparison = Comparison::new(160);
    comparison.step(b"ab");
    assert_eq!(comparison.action(), Action::ReadSecondExact(2));
    assert_eq!(comparison.position(), 160);
    comparison.step(b"ab");
    assert_eq!(comparison.action(), Action::ReadFirst);
    assert_eq!(comparison.position(), 162);
    comparison.step(b"");
    assert_eq!(comparison.action(), Action::ReadSecond);
    comparison.step(b"");
    assert_eq!(comparison.action(), Action::Done(Outcome::Identical));
    comparison.step(b"more");
    assert_eq!(comparison.action(), Action::Done(Outcome::Identical));
}

#[test]
fn comparison_finishes_in_time() {
    let a = vec![7u8; 50];
    assert_eq!(run(0, &a, &a, 1), (Outcome::Identical, 102));
    assert_eq!(run(0, &a, &a, 50), (Outcome::Identical, 4));
}
