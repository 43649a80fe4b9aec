//! Where the signed part of an rpm ends.

use vstd::prelude::*;

verus! {

/// The bytes every rpm starts with.
pub const RPM_LEAD_MAGIC: [u8; 4] = [0xed, 0xab, 0xee, 0xdb];

/// The bytes every rpm header structure starts with.
pub const RPM_HEADER_MAGIC: [u8; 3] = [0x8e, 0xad, 0xe8];

/// The size of the lead in front of the first header.
pub const RPM_LEAD_SIZE: usize = 96;

/// The size of the intro that opens a header: the magic, a version byte, four
/// reserved bytes, the number of index entries and the size of the data.
pub const RPM_HEADER_INTRO_SIZE: usize = 16;

/// How much of a file decides where its signature header ends.
pub const RPM_HEAD_SIZE: usize = 112;

/// The value of four bytes in big-endian order.
pub open spec fn be_u32(b: Seq<u8>) -> int {
    b[0] * 0x100_0000 + b[1] * 0x1_0000 + b[2] * 0x100 + b[3]
}

/// The four bytes that hold `n` in big-endian order.
pub open spec fn be_bytes(n: u32) -> Seq<u8> {
    seq![
        (n / 0x100_0000) as u8,
        (n / 0x1_0000 % 0x100) as u8,
        (n / 0x100 % 0x100) as u8,
        (n % 0x100) as u8,
    ]
}

/// The smallest multiple of eight that is not below `n`.
pub open spec fn round_up_8(n: int) -> int {
    (n + 7) / 8 * 8
}

/// Whether `buf` holds the start of an rpm, up to the end of the intro of its
/// signature header.
pub open spec fn has_signature_intro(buf: Seq<u8>) -> bool {
    &&& buf.len() >= RPM_HEAD_SIZE
    &&& buf.subrange(0, 4) == RPM_LEAD_MAGIC@
    &&& buf.subrange(96, 99) == RPM_HEADER_MAGIC@
}

/// Where the part of a file begins that a rebuild can reproduce.
///
/// For an rpm this is just past the signature header: the lead, the intro,
/// sixteen bytes for every index entry and the data, padded to eight bytes.
/// For anything else it is the start of the file.
pub open spec fn body_offset(buf: Seq<u8>) -> int {
    if has_signature_intro(buf) {
        round_up_8(
            RPM_LEAD_SIZE + RPM_HEADER_INTRO_SIZE + be_u32(buf.subrange(104, 108)) * 16 + be_u32(
                buf.subrange(108, 112),
            ),
        )
    } else {
        0
    }
}

/// Reads the big-endian number in the four bytes that start at `at`.
fn read_be_u32(buf: &[u8], at: usize) -> (n: u64)
    requires
        at + 4 <= buf@.len(),
    ensures
        n == be_u32(buf@.subrange(at as int, at + 4)),
        n <= u32::MAX,
{
    (buf[at] as u64) * 0x100_0000 + (buf[at + 1] as u64) * 0x1_0000 + (buf[at + 2] as u64) * 0x100
        + (buf[at + 3] as u64)
}

/// Whether the bytes of `magic` stand in `buf` from `at` on.
fn has_magic_at(buf: &[u8], at: usize, magic: &[u8]) -> (found: bool)
    requires
        at + magic@.len() <= buf@.len(),
    ensures
        found == (buf@.subrange(at as int, at + magic@.len()) == magic@),
{
    let mut i: usize = 0;
    while i < magic.len()
        invariant
            i <= magic@.len(),
            at + magic@.len() <= buf@.len(),
            buf@.subrange(at as int, at + i) == magic@.take(i as int),
        decreases magic@.len() - i,
    {
        assert(at + i < buf.len());
        if buf[at + i] != magic[i] {
            assert(buf@.subrange(at as int, at + magic@.len())[i as int] == buf@[at + i]);
            return false;
        }
        assert(buf@.subrange(at as int, at + i + 1) =~= buf@.subrange(at as int, at + i).push(
            buf@[at + i],
        ));
        assert(magic@.take(i + 1) =~= magic@.take(i as int).push(magic@[i as int]));
        i += 1;
    }
    assert(magic@.take(i as int) =~= magic@);
    true
}

/// Distributions sign their rpms after building them, which a rebuild can not
/// reproduce. The signature lives in a header of its own in front of the
/// package, so return the offset just past it to compare the rest.
///
/// Returns 0 for everything that isn't an rpm.
pub fn rpm_body_offset(buf: &[u8]) -> (offset: u64)
    ensures
        offset == body_offset(buf@),
{
    if buf.len() < RPM_HEAD_SIZE {
        return 0;
    }
    if !has_magic_at(buf, 0, &RPM_LEAD_MAGIC) || !has_magic_at(
        buf,
        RPM_LEAD_SIZE,
        &RPM_HEADER_MAGIC,
    ) {
        return 0;
    }
    let index_entries = read_be_u32(buf, 104);
    let data_size = read_be_u32(buf, 108);
    let offset: u64 = RPM_LEAD_SIZE as u64 + RPM_HEADER_INTRO_SIZE as u64 + index_entries * 16
        + data_size;
    // the header that follows is aligned to 8 bytes
    (offset + 7) / 8 * 8
}

/// What an rpm is made of.
pub ghost struct RpmParts {
    /// The lead.
    pub lead: Seq<u8>,
    /// The version byte and the reserved bytes of the signature header.
    pub version: Seq<u8>,
    /// The index entries of the signature header.
    pub index: Seq<u8>,
    /// The data that the index entries point into.
    pub data: Seq<u8>,
    /// What aligns the header that follows.
    pub padding: Seq<u8>,
    /// The package behind its signature header.
    pub body: Seq<u8>,
}

impl RpmParts {
    /// Whether the parts have the sizes that the format asks for.
    pub open spec fn wf(self) -> bool {
        &&& self.lead.len() == RPM_LEAD_SIZE
        &&& self.lead.subrange(0, 4) == RPM_LEAD_MAGIC@
        &&& self.version.len() == 5
        &&& self.index.len() % 16 == 0
        &&& self.index.len() / 16 <= u32::MAX
        &&& self.data.len() <= u32::MAX
        &&& self.padding.len() < 8
        &&& (self.data.len() + self.padding.len()) % 8 == 0
    }

    /// The rpm as a file.
    pub open spec fn file(self) -> Seq<u8> {
        self.lead + RPM_HEADER_MAGIC@ + self.version + be_bytes((self.index.len() / 16) as u32)
            + be_bytes(self.data.len() as u32) + self.index + self.data + self.padding + self.body
    }
}

/// The part of a file that a rebuild can reproduce: what stands at its body
/// offset and behind, which is nothing where the file ends before.
pub open spec fn reproducible_part(file: Seq<u8>) -> Seq<u8> {
    if body_offset(file) <= file.len() {
        file.skip(body_offset(file))
    } else {
        Seq::empty()
    }
}

/// Big-endian bytes read back as the number they were made of.
proof fn lemma_be_bytes(n: u32)
    ensures
        be_bytes(n).len() == 4,
        be_u32(be_bytes(n)) == n,
{
}

/// A body offset is aligned to eight bytes, and it is either the start of the
/// file or behind the intro of the signature header.
pub proof fn law_body_offset_is_aligned(buf: Seq<u8>)
    ensures
        body_offset(buf) % 8 == 0,
        body_offset(buf) == 0 || body_offset(buf) >= RPM_HEAD_SIZE,
        body_offset(buf) == 0 <==> !has_signature_intro(buf),
        0 <= body_offset(buf) <= u64::MAX,
{
}

/// The first `RPM_HEAD_SIZE` bytes of a file decide its body offset: reading
/// those, or any more of the file, is enough.
pub proof fn law_head_decides_body_offset(file: Seq<u8>, head: Seq<u8>)
    requires
        head.is_prefix_of(file),
        head.len() >= RPM_HEAD_SIZE || head == file,
    ensures
        body_offset(head) == body_offset(file),
{
    if head.len() >= RPM_HEAD_SIZE {
        assert(head.subrange(0, 4) =~= file.subrange(0, 4));
        assert(head.subrange(96, 99) =~= file.subrange(96, 99));
        assert(head.subrange(104, 108) =~= file.subrange(104, 108));
        assert(head.subrange(108, 112) =~= file.subrange(108, 112));
    }
}

/// Whatever an rpm carries in its signature header, its body offset is where
/// the header and its padding end and the rest of the package begins.
pub proof fn law_rpm_body_follows_signature(rpm: RpmParts)
    requires
        rpm.wf(),
    ensures
        body_offset(rpm.file()) == RPM_HEAD_SIZE + rpm.index.len() + rpm.data.len()
            + rpm.padding.len(),
        reproducible_part(rpm.file()) == rpm.body,
{
    let file = rpm.file();
    let entries = (rpm.index.len() / 16) as u32;
    let size = rpm.data.len() as u32;
    lemma_be_bytes(entries);
    lemma_be_bytes(size);
    assert(file.subrange(0, 4) =~= rpm.lead.subrange(0, 4));
    assert(file.subrange(96, 99) =~= RPM_HEADER_MAGIC@);
    assert(file.subrange(104, 108) =~= be_bytes(entries));
    assert(file.subrange(108, 112) =~= be_bytes(size));
    assert(file.skip(body_offset(file)) =~= rpm.body);
}

/// Two rpms have the same reproducible part if and only if what follows their
/// signature headers is the same, however they were signed.
pub proof fn law_signatures_are_not_compared(a: RpmParts, b: RpmParts)
    requires
        a.wf(),
        b.wf(),
    ensures
        reproducible_part(a.file()) == reproducible_part(b.file()) <==> a.body == b.body,
{
    law_rpm_body_follows_signature(a);
    law_rpm_body_follows_signature(b);
}

/// Every byte of a file that is no rpm is compared.
pub proof fn law_other_files_are_compared_whole(file: Seq<u8>)
    requires
        !has_signature_intro(file),
    ensures
        reproducible_part(file) == file,
{
    assert(file.skip(0) =~= file);
}

/// What the magic bytes are.
proof fn lemma_magic()
    ensures
        RPM_LEAD_MAGIC@ == seq![0xedu8, 0xab, 0xee, 0xdb],
        RPM_HEADER_MAGIC@ == seq![0x8eu8, 0xad, 0xe8],
{
    assert(RPM_LEAD_MAGIC@ =~= seq![0xedu8, 0xab, 0xee, 0xdb]);
    assert(RPM_HEADER_MAGIC@ =~= seq![0x8eu8, 0xad, 0xe8]);
}

/// Nothing is left out of a file that does not begin with the bytes `ed ab ee db`.
pub proof fn law_files_without_lead_magic_are_compared_whole(file: Seq<u8>)
    requires
        !(file.len() >= 4 && file[0] == 0xed && file[1] == 0xab && file[2] == 0xee && file[3]
            == 0xdb),
    ensures
        body_offset(file) == 0,
        reproducible_part(file) == file,
{
    lemma_magic();
    if has_signature_intro(file) {
        let lead = file.subrange(0, 4);
        assert(lead[0] == file[0] && lead[1] == file[1] && lead[2] == file[2] && lead[3]
            == file[3]);
    }
    assert(file.skip(0) =~= file);
}

/// Two files of which neither begins with the bytes `ed ab ee db` have the same
/// reproducible part if and only if they are equal.
pub proof fn law_files_without_lead_magic_have_to_be_equal(a: Seq<u8>, b: Seq<u8>)
    requires
        !(a.len() >= 4 && a[0] == 0xed && a[1] == 0xab && a[2] == 0xee && a[3] == 0xdb),
        !(b.len() >= 4 && b[0] == 0xed && b[1] == 0xab && b[2] == 0xee && b[3] == 0xdb),
    ensures
        reproducible_part(a) == reproducible_part(b) <==> a == b,
{
    law_files_without_lead_magic_are_compared_whole(a);
    law_files_without_lead_magic_are_compared_whole(b);
}

/// Nothing is left out of a file that ends before its 112th byte, or that does not
/// have the bytes `8e ad e8` behind the 96 bytes of the lead.
pub proof fn law_files_without_header_magic_are_compared_whole(file: Seq<u8>)
    requires
        !(file.len() >= 112 && file[96] == 0x8e && file[97] == 0xad && file[98] == 0xe8),
    ensures
        body_offset(file) == 0,
        reproducible_part(file) == file,
{
    lemma_magic();
    if has_signature_intro(file) {
        let magic = file.subrange(96, 99);
        assert(magic[0] == file[96] && magic[1] == file[97] && magic[2] == file[98]);
    }
    assert(file.skip(0) =~= file);
}

/// Of an rpm exactly the lead, the intro and the signature header are left out,
/// up to the next multiple of eight: the intro gives the number of index entries
/// of sixteen bytes each and then the size of the data, both in big-endian order.
pub proof fn law_exactly_the_signature_header_is_left_out(file: Seq<u8>)
    requires
        file.len() >= 112,
        file[0] == 0xed && file[1] == 0xab && file[2] == 0xee && file[3] == 0xdb,
        file[96] == 0x8e && file[97] == 0xad && file[98] == 0xe8,
    ensures
        ({
            let entries = ((file[104] * 256 + file[105]) * 256 + file[106]) * 256 + file[107];
            let size = ((file[108] * 256 + file[109]) * 256 + file[110]) * 256 + file[111];
            let end = 96 + 16 + 16 * entries + size;
            let offset = body_offset(file);
            &&& offset % 8 == 0
            &&& end <= offset < end + 8
            &&& offset >= file.len() ==> reproducible_part(file).len() == 0
            &&& offset < file.len() ==> {
                &&& reproducible_part(file).len() == file.len() - offset
                &&& forall|i: int|
                    0 <= i < file.len() - offset ==> #[trigger] reproducible_part(file)[i]
                        == file[offset + i]
            }
        }),
{
    lemma_magic();
    assert(file.subrange(0, 4) =~= RPM_LEAD_MAGIC@);
    assert(file.subrange(96, 99) =~= RPM_HEADER_MAGIC@);
    let entries = file.subrange(104, 108);
    let size = file.subrange(108, 112);
    assert(entries[0] == file[104] && entries[1] == file[105] && entries[2] == file[106]
        && entries[3] == file[107]);
    assert(size[0] == file[108] && size[1] == file[109] && size[2] == file[110] && size[3]
        == file[111]);
}

} // verus!
