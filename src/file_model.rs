use vstd::prelude::*;

verus! {

/// The largest file offset the system can represent.
pub const MAX_OFFSET: u64 = 0x7fff_ffff_ffff_ffff;

/// The contents of a file after `data` is written at offset `off`: bytes
/// before the write are kept, a gap between the old end and `off` reads as
/// zeros, and the file grows to cover the write.
pub open spec fn write_at(content: Seq<u8>, off: nat, data: Seq<u8>) -> Seq<u8> {
    let end = off + data.len();
    let len: nat = if end > content.len() { end } else { content.len() };
    Seq::new(
        len,
        |i: int|
            if off <= i < end {
                data[i - off]
            } else if i < content.len() {
                content[i]
            } else {
                0u8
            },
    )
}

/// How many bytes a read of `count` bytes at `off` returns from `content`.
pub open spec fn read_len(content: Seq<u8>, off: nat, count: nat) -> nat {
    if off >= content.len() {
        0
    } else if off + count <= content.len() {
        count
    } else {
        (content.len() - off) as nat
    }
}

/// Writing at an offset at or past the end of a file leaves the old bytes,
/// makes the file end exactly after the written bytes, and fills the gap
/// between the old end and the offset with zeros.
pub proof fn lemma_write_past_end_leaves_zeros(content: Seq<u8>, off: nat, data: Seq<u8>)
    requires
        off >= content.len(),
    ensures
        write_at(content, off, data).len() == off + data.len(),
        forall|i: int| 0 <= i < content.len() ==> #[trigger] write_at(content, off, data)[i] == content[i],
        forall|i: int| content.len() <= i < off ==> #[trigger] write_at(content, off, data)[i] == 0u8,
        write_at(content, off, data).subrange(off as int, (off + data.len()) as int) == data,
{
    assert(write_at(content, off, data).subrange(off as int, (off + data.len()) as int) =~= data);
}

} // verus!
