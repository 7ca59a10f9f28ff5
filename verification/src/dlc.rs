//! The DLC table: a 16-byte header with an entry count, then the entries,
//! five big-endian `u32`s each.

use vstd::prelude::*;

use crate::bytes::{
    holds_at, lemma_holds_at_split, lemma_u32_roundtrip, push_u32_be, read_u32_be, u32_at,
    u32_bytes,
};
use crate::nucc::xfbin::XfbinError;

verus! {

/// The DLC table.
#[allow(non_camel_case_types)]
#[derive(Debug)]
pub struct NARUTOUNS4DLC008 {
    pub unk1: u32,
    pub version: u32,
    pub count: u32,
    pub unk2: u32,
    pub entry: Vec<Entry>,
}

/// One entry. The path is not stored in the data: reading leaves it empty,
/// and writing leaves it out.
#[derive(Debug)]
pub struct Entry {
    pub unk1: u32,
    pub unk2: u32,
    pub unk3: u32,
    pub unk4: u32,
    pub unk5: u32,
    pub path: String,
}

/// The stored fields of an entry.
pub struct SpecEntry {
    pub unk1: u32,
    pub unk2: u32,
    pub unk3: u32,
    pub unk4: u32,
    pub unk5: u32,
}

/// The stored fields of a table.
pub struct SpecDlc {
    pub unk1: u32,
    pub version: u32,
    pub count: u32,
    pub unk2: u32,
    pub entry: Seq<SpecEntry>,
}

impl View for Entry {
    type V = SpecEntry;

    open spec fn view(&self) -> SpecEntry {
        SpecEntry {
            unk1: self.unk1,
            unk2: self.unk2,
            unk3: self.unk3,
            unk4: self.unk4,
            unk5: self.unk5,
        }
    }
}

impl View for NARUTOUNS4DLC008 {
    type V = SpecDlc;

    open spec fn view(&self) -> SpecDlc {
        SpecDlc {
            unk1: self.unk1,
            version: self.version,
            count: self.count,
            unk2: self.unk2,
            entry: self.entry@.map_values(|e: Entry| e@),
        }
    }
}

/// The entry stored at `p` (twenty bytes).
pub open spec fn entry_at(s: Seq<u8>, p: int) -> SpecEntry {
    SpecEntry {
        unk1: u32_at(s, p),
        unk2: u32_at(s, p + 4),
        unk3: u32_at(s, p + 8),
        unk4: u32_at(s, p + 12),
        unk5: u32_at(s, p + 16),
    }
}

/// The table at `p`: four `u32`s, the third being the entry count, then
/// that many entries.
pub open spec fn spec_read_dlc(s: Seq<u8>, p: int) -> Option<(SpecDlc, int)> {
    if p < 0 || p + 16 > s.len() {
        None
    } else {
        let count = u32_at(s, p + 8);
        if p + 16 + 20 * count > s.len() {
            None
        } else {
            Some(
                (
                    SpecDlc {
                        unk1: u32_at(s, p),
                        version: u32_at(s, p + 4),
                        count,
                        unk2: u32_at(s, p + 12),
                        entry: Seq::new(count as nat, |i: int| entry_at(s, p + 16 + 20 * i)),
                    },
                    p + 16 + 20 * count,
                ),
            )
        }
    }
}

/// The twenty bytes of an entry.
pub open spec fn entry_bytes(e: SpecEntry) -> Seq<u8> {
    u32_bytes(e.unk1) + u32_bytes(e.unk2) + u32_bytes(e.unk3) + u32_bytes(e.unk4) + u32_bytes(
        e.unk5,
    )
}

/// Entries in a row.
pub open spec fn entries_bytes(v: Seq<SpecEntry>) -> Seq<u8>
    decreases v.len(),
{
    if v.len() == 0 {
        Seq::empty()
    } else {
        entries_bytes(v.drop_last()) + entry_bytes(v.last())
    }
}

/// A whole table.
pub open spec fn dlc_bytes(d: SpecDlc) -> Seq<u8> {
    u32_bytes(d.unk1) + u32_bytes(d.version) + u32_bytes(d.count) + u32_bytes(d.unk2)
        + entries_bytes(d.entry)
}

impl NARUTOUNS4DLC008 {
    /// Reads a table at `pos`. Entry paths are left empty.
    pub fn read_be(bytes: &[u8], pos: usize) -> (r: Result<(NARUTOUNS4DLC008, usize), XfbinError>)
        ensures
            match r {
                Ok((d, q)) => spec_read_dlc(bytes@, pos as int) == Some((d@, q as int)) && forall|
                    i: int,
                | 0 <= i < d.entry@.len() ==> (#[trigger] d.entry@[i]).path@ == Seq::<char>::empty(),
                Err(e) => spec_read_dlc(bytes@, pos as int) is None && e
                    == XfbinError::UnexpectedEof,
            },
    {
        if pos > bytes.len() || bytes.len() - pos < 16 {
            return Err(XfbinError::UnexpectedEof);
        }
        let unk1 = read_u32_be(bytes, pos);
        let version = read_u32_be(bytes, pos + 4);
        let count = read_u32_be(bytes, pos + 8);
        let unk2 = read_u32_be(bytes, pos + 12);
        if (count as u64) * 20 > (bytes.len() - pos - 16) as u64 {
            return Err(XfbinError::UnexpectedEof);
        }
        let start = pos + 16;
        let mut entry: Vec<Entry> = Vec::new();
        let mut i: u32 = 0;
        while i < count
            invariant
                i <= count,
                start == pos + 16,
                start + 20 * count <= bytes@.len(),
                bytes@.len() <= usize::MAX,
                entry@.len() == i,
                forall|k: int|
                    0 <= k < i ==> (#[trigger] entry@[k])@ == entry_at(bytes@, start + 20 * k)
                        && entry@[k].path@ == Seq::<char>::empty(),
            decreases count - i,
        {
            let p = start + 20 * (i as usize);
            entry.push(
                Entry {
                    unk1: read_u32_be(bytes, p),
                    unk2: read_u32_be(bytes, p + 4),
                    unk3: read_u32_be(bytes, p + 8),
                    unk4: read_u32_be(bytes, p + 12),
                    unk5: read_u32_be(bytes, p + 16),
                    path: String::new(),
                },
            );
            i = i + 1;
        }
        let d = NARUTOUNS4DLC008 { unk1, version, count, unk2, entry };
        assert(d@.entry =~= Seq::new(count as nat, |k: int| entry_at(bytes@, start + 20 * k)));
        Ok((d, start + 20 * (count as usize)))
    }

    /// Appends the table. Entry paths are not written.
    pub fn write_be(&self, out: &mut Vec<u8>)
        ensures
            final(out)@ == old(out)@ + dlc_bytes(self@),
    {
        push_u32_be(out, self.unk1);
        push_u32_be(out, self.version);
        push_u32_be(out, self.count);
        push_u32_be(out, self.unk2);
        let ghost head = out@;
        let ghost es = self@.entry;
        let mut i: usize = 0;
        assert(es.take(0) =~= Seq::<SpecEntry>::empty());
        assert(out@ =~= head + entries_bytes(es.take(0)));
        while i < self.entry.len()
            invariant
                i <= self.entry@.len(),
                es == self@.entry,
                out@ == head + entries_bytes(es.take(i as int)),
            decreases self.entry@.len() - i,
        {
            let e = &self.entry[i];
            assert(es[i as int] == e@);
            push_u32_be(out, e.unk1);
            push_u32_be(out, e.unk2);
            push_u32_be(out, e.unk3);
            push_u32_be(out, e.unk4);
            push_u32_be(out, e.unk5);
            assert(es.take(i + 1).drop_last() =~= es.take(i as int));
            assert(out@ =~= head + entries_bytes(es.take(i + 1)));
            i = i + 1;
        }
        assert(es.take(i as int) =~= es);
        assert(final(out)@ =~= old(out)@ + dlc_bytes(self@));
    }
}

proof fn lemma_entries_back(s: Seq<u8>, p: int, v: Seq<SpecEntry>)
    requires
        holds_at(s, p, entries_bytes(v)),
    ensures
        entries_bytes(v).len() == 20 * v.len(),
        forall|i: int| 0 <= i < v.len() ==> entry_at(s, p + 20 * i) == #[trigger] v[i],
    decreases v.len(),
{
    if v.len() > 0 {
        let init = v.drop_last();
        let e = v.last();
        lemma_holds_at_split(s, p, entries_bytes(init), entry_bytes(e));
        lemma_entries_back(s, p, init);
        let q = p + 20 * init.len();
        let a1 = u32_bytes(e.unk1);
        let a2 = a1 + u32_bytes(e.unk2);
        let a3 = a2 + u32_bytes(e.unk3);
        let a4 = a3 + u32_bytes(e.unk4);
        lemma_holds_at_split(s, q, a4, u32_bytes(e.unk5));
        lemma_holds_at_split(s, q, a3, u32_bytes(e.unk4));
        lemma_holds_at_split(s, q, a2, u32_bytes(e.unk3));
        lemma_holds_at_split(s, q, a1, u32_bytes(e.unk2));
        lemma_u32_roundtrip(s, q, e.unk1);
        lemma_u32_roundtrip(s, q + 4, e.unk2);
        lemma_u32_roundtrip(s, q + 8, e.unk3);
        lemma_u32_roundtrip(s, q + 12, e.unk4);
        lemma_u32_roundtrip(s, q + 16, e.unk5);
        assert forall|i: int| 0 <= i < v.len() implies entry_at(s, p + 20 * i) == #[trigger] v[i] by {
            if i < init.len() {
                assert(v[i] == init[i]);
            }
        }
    }
}

proof fn lemma_dlc_back(s: Seq<u8>, p: int, d: SpecDlc)
    requires
        holds_at(s, p, dlc_bytes(d)),
        d.count == d.entry.len(),
    ensures
        spec_read_dlc(s, p) == Some((d, p + dlc_bytes(d).len() as int)),
{
    let a1 = u32_bytes(d.unk1);
    let a2 = a1 + u32_bytes(d.version);
    let a3 = a2 + u32_bytes(d.count);
    let a4 = a3 + u32_bytes(d.unk2);
    lemma_holds_at_split(s, p, a4, entries_bytes(d.entry));
    lemma_holds_at_split(s, p, a3, u32_bytes(d.unk2));
    lemma_holds_at_split(s, p, a2, u32_bytes(d.count));
    lemma_holds_at_split(s, p, a1, u32_bytes(d.version));
    lemma_u32_roundtrip(s, p, d.unk1);
    lemma_u32_roundtrip(s, p + 4, d.version);
    lemma_u32_roundtrip(s, p + 8, d.count);
    lemma_u32_roundtrip(s, p + 12, d.unk2);
    lemma_entries_back(s, p + 16, d.entry);
    assert(Seq::new(d.count as nat, |i: int| entry_at(s, p + 16 + 20 * i)) =~= d.entry);
}

/// A table whose count matches its entries reads back as written, wherever
/// it is placed.
pub proof fn lemma_dlc_roundtrip(pre: Seq<u8>, d: SpecDlc, post: Seq<u8>)
    requires
        d.count == d.entry.len(),
    ensures
        spec_read_dlc(pre + dlc_bytes(d) + post, pre.len() as int) == Some(
            (d, pre.len() + dlc_bytes(d).len() as int),
        ),
{
    let b = dlc_bytes(d);
    let s = pre + b + post;
    let p = pre.len() as int;
    assert(s.subrange(p, p + b.len()) =~= b);
    lemma_dlc_back(s, p, d);
}

} // verus!
