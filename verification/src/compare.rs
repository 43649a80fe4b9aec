//! Comparing two files chunk by chunk.
//!
//! A [`Comparison`] decides what to read next and what the bytes that were
//! read mean. Whoever holds the files reads them and hands the bytes back.

use vstd::prelude::*;
use vstd::slice::slice_subrange;
use vstd::slice::slice_to_vec;

use crate::rpm::rpm_body_offset;

verus! {

/// How much is read from the first file at once.
pub const CHUNK_SIZE: usize = 4096;

/// What a finished comparison found.
#[derive(Clone, Copy, Debug, PartialEq, Eq, Structural)]
pub enum Outcome {
    /// Both files hold the same bytes.
    Identical,
    /// The second file goes on after the end of the first.
    SecondLonger,
    /// The second file ends before the first.
    SecondShorter,
    /// The files differ at this position of the first file.
    DiffersAt(u64),
}

/// What a comparison needs next.
#[derive(Clone, Copy, Debug, PartialEq, Eq, Structural)]
pub enum Action {
    /// Read up to `CHUNK_SIZE` bytes of the first file; none if it is at its end.
    ReadFirst,
    /// Read exactly this many bytes of the second file, or fewer if it ends before.
    ReadSecondExact(usize),
    /// Read at least one byte of the second file; none if it is at its end.
    ReadSecond,
    /// Nothing: the comparison has finished.
    Done(Outcome),
}

enum Phase {
    First,
    Second(Vec<u8>),
    Tail,
    Finished(Outcome),
}

/// What a comparison waits for, as a mathematical value.
#[verifier::ext_equal]
pub ghost enum PhaseView {
    /// The next chunk of the first file.
    First,
    /// The bytes of the second file that stand against this chunk of the first.
    Second(Seq<u8>),
    /// Whether the second file goes on after the end of the first.
    Tail,
    /// Nothing any more.
    Finished(Outcome),
}

/// A comparison, as a mathematical value.
#[verifier::ext_equal]
pub ghost struct ComparisonView {
    /// The position of the first file up to which the files are equal.
    pub pos: int,
    /// What the comparison waits for.
    pub phase: PhaseView,
}

/// A comparison of two files in progress.
pub struct Comparison {
    pos: u64,
    phase: Phase,
}

impl View for Comparison {
    type V = ComparisonView;

    closed spec fn view(&self) -> ComparisonView {
        ComparisonView {
            pos: self.pos as int,
            phase: match self.phase {
                Phase::First => PhaseView::First,
                Phase::Second(chunk) => PhaseView::Second(chunk@),
                Phase::Tail => PhaseView::Tail,
                Phase::Finished(outcome) => PhaseView::Finished(outcome),
            },
        }
    }
}

/// The number of leading bytes that `a` and `b` share.
pub open spec fn shared_prefix(a: Seq<u8>, b: Seq<u8>) -> nat
    decreases a.len(),
{
    if a.len() == 0 || b.len() == 0 || a[0] != b[0] {
        0
    } else {
        1 + shared_prefix(a.drop_first(), b.drop_first())
    }
}

impl ComparisonView {
    /// A comparison that begins at `offset` of the first file.
    pub open spec fn start(offset: u64) -> ComparisonView {
        ComparisonView { pos: offset as int, phase: PhaseView::First }
    }

    /// Positions of the first file are 64-bit numbers.
    pub open spec fn wf(self) -> bool {
        &&& 0 <= self.pos <= u64::MAX
        &&& self.phase matches PhaseView::Second(chunk) ==> {
            &&& 0 < chunk.len() <= usize::MAX
            &&& self.pos + chunk.len() <= u64::MAX
        }
    }

    /// What has to be read next.
    pub open spec fn action(self) -> Action {
        match self.phase {
            PhaseView::First => Action::ReadFirst,
            PhaseView::Second(chunk) => Action::ReadSecondExact(chunk.len() as usize),
            PhaseView::Tail => Action::ReadSecond,
            PhaseView::Finished(outcome) => Action::Done(outcome),
        }
    }

    /// The comparison after `bytes` were read for its action.
    pub open spec fn step(self, bytes: Seq<u8>) -> ComparisonView {
        match self.phase {
            PhaseView::First => ComparisonView {
                pos: self.pos,
                phase: if bytes.len() == 0 {
                    PhaseView::Tail
                } else {
                    PhaseView::Second(bytes)
                },
            },
            PhaseView::Second(chunk) => if bytes.len() < chunk.len() {
                ComparisonView {
                    pos: self.pos,
                    phase: PhaseView::Finished(Outcome::SecondShorter),
                }
            } else if bytes == chunk {
                ComparisonView { pos: self.pos + chunk.len(), phase: PhaseView::First }
            } else {
                ComparisonView {
                    pos: self.pos,
                    phase: PhaseView::Finished(
                        Outcome::DiffersAt((self.pos + shared_prefix(chunk, bytes)) as u64),
                    ),
                }
            },
            PhaseView::Tail => ComparisonView {
                pos: self.pos,
                phase: PhaseView::Finished(
                    if bytes.len() == 0 {
                        Outcome::Identical
                    } else {
                        Outcome::SecondLonger
                    },
                ),
            },
            PhaseView::Finished(_) => self,
        }
    }

    /// Whether `bytes` can be what was read for the action of this comparison,
    /// as far as its length goes.
    pub open spec fn accepts(self, bytes: Seq<u8>) -> bool {
        match self.phase {
            PhaseView::First => self.pos + bytes.len() <= u64::MAX,
            PhaseView::Second(chunk) => bytes.len() <= chunk.len(),
            _ => true,
        }
    }
}

/// Finds the first position at which two slices of the same length differ, or
/// their length if there is none.
fn first_difference(a: &[u8], b: &[u8]) -> (n: usize)
    requires
        a@.len() == b@.len(),
    ensures
        n == shared_prefix(a@, b@),
        n <= a@.len(),
        n == a@.len() <==> a@ == b@,
{
    let mut n: usize = 0;
    assert(a@.skip(0) =~= a@);
    assert(b@.skip(0) =~= b@);
    while n < a.len() && a[n] == b[n]
        invariant
            n <= a@.len(),
            a@.len() == b@.len(),
            a@.take(n as int) == b@.take(n as int),
            shared_prefix(a@, b@) == n + shared_prefix(a@.skip(n as int), b@.skip(n as int)),
        decreases a@.len() - n,
    {
        assert(a@.skip(n as int).drop_first() =~= a@.skip(n + 1));
        assert(b@.skip(n as int).drop_first() =~= b@.skip(n + 1));
        assert(a@.take(n + 1) =~= a@.take(n as int).push(a@[n as int]));
        assert(b@.take(n + 1) =~= b@.take(n as int).push(b@[n as int]));
        n += 1;
    }
    assert(a@.take(a@.len() as int) =~= a@);
    assert(b@.take(b@.len() as int) =~= b@);
    n
}

impl Comparison {
    /// Begins a comparison of what follows `offset` in the first file with what
    /// follows the position at which the second file stands.
    pub fn new(offset: u64) -> (comparison: Comparison)
        ensures
            comparison@ == ComparisonView::start(offset),
            comparison@.wf(),
    {
        Comparison { pos: offset, phase: Phase::First }
    }

    /// What has to be read next.
    pub fn action(&self) -> (action: Action)
        ensures
            action == self@.action(),
    {
        match &self.phase {
            Phase::First => Action::ReadFirst,
            Phase::Second(chunk) => Action::ReadSecondExact(chunk.len()),
            Phase::Tail => Action::ReadSecond,
            Phase::Finished(outcome) => Action::Done(*outcome),
        }
    }

    /// The position of the first file up to which the files are known to be equal.
    pub fn position(&self) -> (pos: u64)
        ensures
            pos == self@.pos,
    {
        self.pos
    }

    /// Goes on with the bytes that were read for the last action.
    pub fn step(&mut self, bytes: &[u8])
        requires
            old(self)@.wf(),
            old(self)@.accepts(bytes@),
        ensures
            final(self)@ == old(self)@.step(bytes@),
            final(self)@.wf(),
    {
        let next = match &self.phase {
            Phase::First => if bytes.len() == 0 {
                // check if the other file is at its end too
                Phase::Tail
            } else {
                // check the same chunk in the other file
                Phase::Second(slice_to_vec(bytes))
            },
            Phase::Second(chunk) => if bytes.len() < chunk.len() {
                Phase::Finished(Outcome::SecondShorter)
            } else {
                let shared = first_difference(chunk.as_slice(), bytes);
                if shared == chunk.len() {
                    // advance the number of bytes that are equal
                    self.pos = self.pos + shared as u64;
                    Phase::First
                } else {
                    Phase::Finished(Outcome::DiffersAt(self.pos + shared as u64))
                }
            },
            Phase::Tail => Phase::Finished(
                if bytes.len() == 0 {
                    Outcome::Identical
                } else {
                    Outcome::SecondLonger
                },
            ),
            Phase::Finished(outcome) => Phase::Finished(*outcome),
        };
        self.phase = next;
    }
}

/// Compares the reproducible parts of two files that are held in memory.
pub fn compare_files(a: &[u8], b: &[u8]) -> (identical: bool)
    ensures
        identical == (crate::rpm::reproducible_part(a@) == crate::rpm::reproducible_part(b@)),
        a@ == b@ ==> identical,
        !(a@.len() >= 4 && a@[0] == 0xed && a@[1] == 0xab && a@[2] == 0xee && a@[3] == 0xdb) && !(
        b@.len() >= 4 && b@[0] == 0xed && b@[1] == 0xab && b@[2] == 0xee && b@[3] == 0xdb)
            ==> identical == (a@ == b@),
{
    // the signature headers may have different sizes, so track the offsets apart
    let offset = rpm_body_offset(a);
    let other_offset = rpm_body_offset(b);
    let mut i: usize = if offset <= a.len() as u64 {
        offset as usize
    } else {
        a.len()
    };
    let mut j: usize = if other_offset <= b.len() as u64 {
        other_offset as usize
    } else {
        b.len()
    };
    let mut comparison = Comparison::new(offset);
    let ghost first = crate::rpm::reproducible_part(a@);
    let ghost second = crate::rpm::reproducible_part(b@);
    let ghost start = offset as int;
    assert(a@.skip(i as int) =~= first);
    assert(b@.skip(j as int) =~= second);
    proof {
        lemma_start(offset, first, second);
    }
    loop
        invariant
            i <= a@.len(),
            j <= b@.len(),
            comparison@.wf(),
            0 <= start,
            start + first.len() <= u64::MAX,
            first == crate::rpm::reproducible_part(a@),
            second == crate::rpm::reproducible_part(b@),
            agrees(comparison@, a@.skip(i as int), b@.skip(j as int), start, first, second),
        decreases reads_left(comparison@, a@.skip(i as int)),
    {
        let ghost before = comparison@;
        let ghost a_left = a@.skip(i as int);
        let ghost b_left = b@.skip(j as int);
        match comparison.action() {
            Action::ReadFirst => {
                let n: usize = if a.len() - i < CHUNK_SIZE {
                    a.len() - i
                } else {
                    CHUNK_SIZE
                };
                let bytes = slice_subrange(a, i, i + n);
                assert(bytes@ =~= a_left.take(n as int));
                comparison.step(bytes);
                i = i + n;
                assert(a@.skip(i as int) =~= a_left.skip(n as int));
                proof {
                    lemma_step(before, a_left, b_left, start, first, second, bytes@);
                }
            },
            Action::ReadSecondExact(n) => {
                let n: usize = if b.len() - j < n {
                    b.len() - j
                } else {
                    n
                };
                let bytes = slice_subrange(b, j, j + n);
                assert(bytes@ =~= b_left.take(n as int));
                comparison.step(bytes);
                j = j + n;
                assert(b@.skip(j as int) =~= b_left.skip(n as int));
                proof {
                    lemma_step(before, a_left, b_left, start, first, second, bytes@);
                }
            },
            Action::ReadSecond => {
                let bytes = slice_subrange(b, j, b.len());
                assert(bytes@ =~= b_left);
                comparison.step(bytes);
                j = b.len();
                assert(b@.skip(j as int) =~= b_left.skip(bytes@.len() as int));
                proof {
                    lemma_step(before, a_left, b_left, start, first, second, bytes@);
                }
            },
            Action::Done(outcome) => {
                proof {
                    law_only_equal_files_are_identical(start, first, second, outcome);
                    if !(a@.len() >= 4 && a@[0] == 0xed && a@[1] == 0xab && a@[2] == 0xee && a@[3]
                        == 0xdb) && !(b@.len() >= 4 && b@[0] == 0xed && b@[1] == 0xab && b@[2]
                        == 0xee && b@[3] == 0xdb) {
                        crate::rpm::law_files_without_lead_magic_have_to_be_equal(a@, b@);
                    }
                }
                return match outcome {
                    Outcome::Identical => true,
                    _ => false,
                };
            },
        }
    }
}

/// Whether `bytes` is what reading for the action of `c` can give, where `a`
/// and `b` are what has not been read yet of the first and the second file.
pub open spec fn reads(c: ComparisonView, a: Seq<u8>, b: Seq<u8>, bytes: Seq<u8>) -> bool {
    match c.phase {
        PhaseView::First => bytes.is_prefix_of(a) && (bytes.len() == 0 ==> a.len() == 0),
        PhaseView::Second(chunk) => bytes.is_prefix_of(b) && bytes.len() <= chunk.len() && (
        bytes.len() < chunk.len() ==> b.len() < chunk.len()),
        PhaseView::Tail => bytes.is_prefix_of(b) && (bytes.len() == 0 ==> b.len() == 0),
        PhaseView::Finished(_) => true,
    }
}

/// What is left of the first file after `bytes` were read for the action of `c`.
pub open spec fn first_left(c: ComparisonView, a: Seq<u8>, bytes: Seq<u8>) -> Seq<u8> {
    if c.phase is First {
        a.skip(bytes.len() as int)
    } else {
        a
    }
}

/// What is left of the second file after `bytes` were read for the action of `c`.
pub open spec fn second_left(c: ComparisonView, b: Seq<u8>, bytes: Seq<u8>) -> Seq<u8> {
    if c.phase is Second || c.phase is Tail {
        b.skip(bytes.len() as int)
    } else {
        b
    }
}

/// Whether the comparison `c` can read `log` one after the other, where `a` and
/// `b` are what has not been read yet of the first and the second file.
pub open spec fn is_run(c: ComparisonView, a: Seq<u8>, b: Seq<u8>, log: Seq<Seq<u8>>) -> bool
    decreases log.len(),
{
    log.len() > 0 ==> {
        &&& reads(c, a, b, log[0])
        &&& is_run(
            c.step(log[0]),
            first_left(c, a, log[0]),
            second_left(c, b, log[0]),
            log.drop_first(),
        )
    }
}

/// The comparison `c` after it has read `log` one after the other.
pub open spec fn after_run(c: ComparisonView, log: Seq<Seq<u8>>) -> ComparisonView
    decreases log.len(),
{
    if log.len() == 0 {
        c
    } else {
        after_run(c.step(log[0]), log.drop_first())
    }
}

/// What `outcome` says of a comparison of `a` with `b` that begins at `offset`
/// of the first file.
pub open spec fn is_outcome(offset: int, a: Seq<u8>, b: Seq<u8>, outcome: Outcome) -> bool {
    match outcome {
        Outcome::Identical => a == b,
        Outcome::SecondLonger => a.is_prefix_of(b) && a.len() < b.len(),
        Outcome::SecondShorter => b.len() < a.len(),
        Outcome::DiffersAt(pos) => {
            let i = shared_prefix(a, b);
            &&& pos == offset + i
            &&& i < a.len()
            &&& i < b.len()
            &&& a[i as int] != b[i as int]
        },
    }
}

/// An upper bound on how often `c` still has to read, where `a` is what has not
/// been read yet of the first file.
pub open spec fn reads_left(c: ComparisonView, a: Seq<u8>) -> nat {
    match c.phase {
        PhaseView::First => 2 * a.len() + 2,
        PhaseView::Second(_) => 2 * a.len() + 3,
        PhaseView::Tail => 1,
        PhaseView::Finished(_) => 0,
    }
}

/// How far the comparison `c`, which began at `offset`, has come with the files
/// `first` and `second`, of which `a` and `b` have not been read yet.
spec fn agrees(
    c: ComparisonView,
    a: Seq<u8>,
    b: Seq<u8>,
    offset: int,
    first: Seq<u8>,
    second: Seq<u8>,
) -> bool {
    let n = c.pos - offset;
    match c.phase {
        PhaseView::First => {
            &&& 0 <= n <= first.len()
            &&& n <= second.len()
            &&& first.take(n) == second.take(n)
            &&& first.skip(n) == a
            &&& second.skip(n) == b
        },
        PhaseView::Second(chunk) => {
            &&& 0 <= n <= first.len()
            &&& n <= second.len()
            &&& 0 < chunk.len()
            &&& first.take(n) == second.take(n)
            &&& first.skip(n) == chunk + a
            &&& second.skip(n) == b
        },
        PhaseView::Tail => first + b == second,
        PhaseView::Finished(outcome) => is_outcome(offset, first, second, outcome),
    }
}

/// What it means for `a` and `b` to share their first `shared_prefix(a, b)` bytes.
proof fn lemma_shared_prefix(a: Seq<u8>, b: Seq<u8>)
    ensures
        shared_prefix(a, b) <= a.len(),
        shared_prefix(a, b) <= b.len(),
        a.take(shared_prefix(a, b) as int) == b.take(shared_prefix(a, b) as int),
        shared_prefix(a, b) < a.len() && shared_prefix(a, b) < b.len() ==> a[shared_prefix(
            a,
            b,
        ) as int] != b[shared_prefix(a, b) as int],
    decreases a.len(),
{
    let n = shared_prefix(a, b) as int;
    if n > 0 {
        let (a1, b1) = (a.drop_first(), b.drop_first());
        lemma_shared_prefix(a1, b1);
        assert(a.take(n) =~= seq![a[0]] + a1.take(n - 1));
        assert(b.take(n) =~= seq![b[0]] + b1.take(n - 1));
    } else {
        assert(a.take(0) =~= b.take(0));
    }
}

/// No other number of leading bytes is shared up to the first difference.
proof fn lemma_shared_prefix_is(a: Seq<u8>, b: Seq<u8>, n: int)
    requires
        0 <= n < a.len(),
        n < b.len(),
        a.take(n) == b.take(n),
        a[n] != b[n],
    ensures
        shared_prefix(a, b) == n,
{
    lemma_shared_prefix(a, b);
    let m = shared_prefix(a, b) as int;
    if n < m {
        assert(a.take(m)[n] == a[n] && b.take(m)[n] == b[n]);
    } else if m < n {
        assert(a.take(n)[m] == a[m] && b.take(n)[m] == b[m]);
    }
}

/// Every read takes a comparison one step further.
proof fn lemma_step(
    c: ComparisonView,
    a: Seq<u8>,
    b: Seq<u8>,
    offset: int,
    first: Seq<u8>,
    second: Seq<u8>,
    bytes: Seq<u8>,
)
    requires
        0 <= offset,
        offset + first.len() <= u64::MAX,
        agrees(c, a, b, offset, first, second),
        reads(c, a, b, bytes),
    ensures
        agrees(
            c.step(bytes),
            first_left(c, a, bytes),
            second_left(c, b, bytes),
            offset,
            first,
            second,
        ),
        !(c.phase is Finished) ==> reads_left(c.step(bytes), first_left(c, a, bytes)) < reads_left(
            c,
            a,
        ),
{
    let n = c.pos - offset;
    match c.phase {
        PhaseView::First => {
            if bytes.len() == 0 {
                assert(first =~= first.take(n));
                assert(second =~= second.take(n) + second.skip(n));
            } else {
                assert(a =~= bytes + a.skip(bytes.len() as int));
            }
        },
        PhaseView::Second(chunk) => {
            if bytes.len() < chunk.len() {
            } else if bytes == chunk {
                let m = n + chunk.len();
                assert(first.skip(n).len() == chunk.len() + a.len());
                assert(second.skip(n).len() == b.len());
                assert(first.take(m) =~= first.take(n) + first.skip(n).take(chunk.len() as int));
                assert(second.take(m) =~= second.take(n) + second.skip(n).take(chunk.len() as int));
                assert(first.skip(n).take(chunk.len() as int) =~= chunk);
                assert(second.skip(n).take(chunk.len() as int) =~= bytes);
                assert(first.skip(m) =~= first.skip(n).skip(chunk.len() as int));
                assert(first.skip(n).skip(chunk.len() as int) =~= a);
                assert(second.skip(m) =~= second.skip(n).skip(chunk.len() as int));
            } else {
                lemma_shared_prefix(chunk, bytes);
                let k = shared_prefix(chunk, bytes) as int;
                if k == chunk.len() {
                    assert(chunk =~= chunk.take(k));
                    assert(bytes =~= bytes.take(k));
                }
                assert(first.take(n + k) =~= first.take(n) + chunk.take(k)) by {
                    assert(first.skip(n).take(k) =~= chunk.take(k));
                    assert(first.take(n + k) =~= first.take(n) + first.skip(n).take(k));
                }
                assert(second.take(n + k) =~= second.take(n) + bytes.take(k)) by {
                    assert(second.skip(n).take(k) =~= bytes.take(k));
                    assert(second.take(n + k) =~= second.take(n) + second.skip(n).take(k));
                }
                assert(first.skip(n)[k] == chunk[k]);
                assert(second.skip(n)[k] == bytes[k]);
                lemma_shared_prefix_is(first, second, n + k);
            }
        },
        PhaseView::Tail => {
            if bytes.len() == 0 {
                assert(first + b =~= first);
            } else {
                assert(second.take(first.len() as int) =~= first);
            }
        },
        PhaseView::Finished(_) => {},
    }
}

/// Whatever a comparison reads one after the other, it stays right about the files.
proof fn lemma_run(
    c: ComparisonView,
    a: Seq<u8>,
    b: Seq<u8>,
    offset: int,
    first: Seq<u8>,
    second: Seq<u8>,
    log: Seq<Seq<u8>>,
)
    requires
        0 <= offset,
        offset + first.len() <= u64::MAX,
        agrees(c, a, b, offset, first, second),
        is_run(c, a, b, log),
    ensures
        after_run(c, log).phase matches PhaseView::Finished(outcome) ==> is_outcome(
            offset,
            first,
            second,
            outcome,
        ),
        log.len() >= reads_left(c, a) ==> after_run(c, log).phase is Finished,
    decreases log.len(),
{
    if log.len() > 0 {
        lemma_step(c, a, b, offset, first, second, log[0]);
        lemma_run(
            c.step(log[0]),
            first_left(c, a, log[0]),
            second_left(c, b, log[0]),
            offset,
            first,
            second,
            log.drop_first(),
        );
    }
}

proof fn lemma_start(offset: u64, first: Seq<u8>, second: Seq<u8>)
    ensures
        agrees(
            ComparisonView::start(offset),
            first,
            second,
            offset as int,
            first,
            second,
        ),
{
    assert(first.take(0) =~= second.take(0));
    assert(first.skip(0) =~= first);
    assert(second.skip(0) =~= second);
}

/// The outcome `Identical` is kept for equal files.
pub proof fn law_only_equal_files_are_identical(
    offset: int,
    first: Seq<u8>,
    second: Seq<u8>,
    outcome: Outcome,
)
    requires
        is_outcome(offset, first, second, outcome),
    ensures
        outcome is Identical <==> first == second,
{
    lemma_shared_prefix(first, second);
}

/// However the reads split the files into chunks, a comparison that finishes
/// says of the files what its outcome stands for. In particular it finds them
/// identical if and only if they are equal.
pub proof fn law_finished_comparison_is_right(
    offset: u64,
    first: Seq<u8>,
    second: Seq<u8>,
    log: Seq<Seq<u8>>,
)
    requires
        offset + first.len() <= u64::MAX,
        is_run(ComparisonView::start(offset), first, second, log),
    ensures
        after_run(ComparisonView::start(offset), log).phase matches PhaseView::Finished(outcome)
            ==> {
            &&& is_outcome(offset as int, first, second, outcome)
            &&& outcome is Identical <==> first == second
        },
{
    lemma_start(offset, first, second);
    lemma_run(
        ComparisonView::start(offset),
        first,
        second,
        offset as int,
        first,
        second,
        log,
    );
    if let PhaseView::Finished(outcome) = after_run(ComparisonView::start(offset), log).phase {
        law_only_equal_files_are_identical(offset as int, first, second, outcome);
    }
}

/// A comparison comes to an end: it has finished at the latest when it has read
/// two more times than twice the length of the first file.
pub proof fn law_comparison_finishes(
    offset: u64,
    first: Seq<u8>,
    second: Seq<u8>,
    log: Seq<Seq<u8>>,
)
    requires
        offset + first.len() <= u64::MAX,
        is_run(ComparisonView::start(offset), first, second, log),
        log.len() >= 2 * first.len() + 2,
    ensures
        after_run(ComparisonView::start(offset), log).phase is Finished,
{
    lemma_start(offset, first, second);
    lemma_run(
        ComparisonView::start(offset),
        first,
        second,
        offset as int,
        first,
        second,
        log,
    );
}

/// However the reads split the files into chunks, the outcome of a comparison is
/// what the files say: nothing follows in either after the same bytes, or the
/// second file goes on, or it ends too early, or both have different bytes at the
/// reported position of the first file and the same bytes before.
pub proof fn law_outcome_is_what_the_files_say(
    offset: u64,
    first: Seq<u8>,
    second: Seq<u8>,
    log: Seq<Seq<u8>>,
    outcome: Outcome,
)
    requires
        offset + first.len() <= u64::MAX,
        is_run(ComparisonView::start(offset), first, second, log),
        after_run(ComparisonView::start(offset), log).action() == Action::Done(outcome),
    ensures
        outcome == Outcome::Identical <==> first == second,
        outcome == Outcome::SecondLonger ==> first.len() < second.len() && first
            == second.subrange(0, first.len() as int),
        outcome == Outcome::SecondShorter ==> second.len() < first.len(),
        forall|pos: u64|
            outcome == Outcome::DiffersAt(pos) ==> {
                let i = pos - offset;
                &&& 0 <= i < first.len()
                &&& i < second.len()
                &&& first[i] != second[i]
                &&& forall|j: int| 0 <= j < i ==> first[j] == second[j]
            },
{
    law_finished_comparison_is_right(offset, first, second, log);
    lemma_shared_prefix(first, second);
    assert(first.is_prefix_of(second) ==> first =~= second.subrange(0, first.len() as int));
    let n = shared_prefix(first, second) as int;
    assert forall|j: int| 0 <= j < n implies first[j] == second[j] by {
        assert(first.take(n)[j] == second.take(n)[j]);
    }
}

/// A comparison begins with a chunk of the first file, at the offset it was given.
pub proof fn law_comparison_begins_with_the_first_file(offset: u64)
    ensures
        ComparisonView::start(offset).action() == Action::ReadFirst,
        ComparisonView::start(offset).pos == offset,
{
}

/// After a chunk of the first file, as many bytes of the second are read. If they
/// are the same, the comparison goes on behind them; if there are fewer, the second
/// file is shorter; and else they differ where the first of them does.
pub proof fn law_chunks_are_compared(c: ComparisonView, chunk: Seq<u8>, bytes: Seq<u8>)
    requires
        c.wf(),
        c.action() == Action::ReadFirst,
        0 < chunk.len() <= usize::MAX,
        c.pos + chunk.len() <= u64::MAX,
        bytes.len() <= chunk.len(),
    ensures
        c.accepts(chunk),
        c.step(chunk).action() == Action::ReadSecondExact(chunk.len() as usize),
        c.step(chunk).accepts(bytes),
        ({
            let next = c.step(chunk).step(bytes);
            if bytes.len() < chunk.len() {
                next.action() == Action::Done(Outcome::SecondShorter)
            } else if chunk == bytes {
                &&& next.action() == Action::ReadFirst
                &&& next.pos == c.pos + chunk.len()
            } else {
                exists|i: int|
                    {
                        &&& 0 <= i < chunk.len()
                        &&& #[trigger] chunk[i] != bytes[i]
                        &&& forall|j: int| 0 <= j < i ==> chunk[j] == bytes[j]
                        &&& next.action() == Action::Done(Outcome::DiffersAt((c.pos + i) as u64))
                    }
            }
        }),
{
    lemma_shared_prefix(chunk, bytes);
    let n = shared_prefix(chunk, bytes) as int;
    assert forall|j: int| 0 <= j < n implies chunk[j] == bytes[j] by {
        assert(chunk.take(n)[j] == bytes.take(n)[j]);
    }
    if bytes.len() == chunk.len() && chunk != bytes {
        if n == chunk.len() {
            assert(chunk =~= bytes);
        }
        assert(chunk[n] != bytes[n]);
    }
}

/// At the end of the first file the files are identical if and only if the second
/// is at its end too.
pub proof fn law_both_files_have_to_end(c: ComparisonView, bytes: Seq<u8>)
    requires
        c.wf(),
        c.action() == Action::ReadFirst,
    ensures
        c.accepts(Seq::empty()),
        c.step(Seq::empty()).action() == Action::ReadSecond,
        c.step(Seq::empty()).accepts(bytes),
        c.step(Seq::empty()).step(bytes).action() == Action::Done(
            if bytes.len() == 0 {
                Outcome::Identical
            } else {
                Outcome::SecondLonger
            },
        ),
{
}

} // verus!
