use vstd::bytes::*;
use vstd::prelude::*;
use vstd::slice::*;

verus! {

/// One record as it lies in a file: its length in eight bytes, least
/// significant first, then its bytes.
pub open spec fn frame(record: Seq<u8>) -> Seq<u8> {
    spec_u64_to_le_bytes(record.len() as u64) + record
}

/// A file that holds the given records, one frame after the other.
pub open spec fn frames(records: Seq<Seq<u8>>) -> Seq<u8>
    decreases records.len(),
{
    if records.len() == 0 {
        Seq::empty()
    } else {
        frame(records.first()) + frames(records.drop_first())
    }
}

/// The record length that the first eight bytes of a file announce.
pub open spec fn announced(file: Seq<u8>) -> int {
    spec_u64_from_le_bytes(file.subrange(0, 8)) as int
}

/// Whether a file starts with a whole frame.
pub open spec fn starts_with_frame(file: Seq<u8>) -> bool {
    file.len() >= 8 && 8 + announced(file) <= file.len()
}

/// The records of a file, read from its start for as long as whole frames
/// follow one another. Reading stops silently at the first incomplete frame.
pub open spec fn parse_all(file: Seq<u8>) -> Seq<Seq<u8>>
    decreases file.len(),
{
    if !starts_with_frame(file) {
        Seq::empty()
    } else {
        seq![file.subrange(8, 8 + announced(file))] + parse_all(
            file.subrange(8 + announced(file), file.len() as int),
        )
    }
}

/// Whether a file is exactly one frame.
pub open spec fn is_single(file: Seq<u8>) -> bool {
    file.len() >= 8 && 8 + announced(file) == file.len()
}

/// The byte strings that a vector of records holds.
pub open spec fn contents(records: Seq<Vec<u8>>) -> Seq<Seq<u8>> {
    records.map_values(|r: Vec<u8>| r@)
}

/// A frame is read back as the record it was made of.
pub proof fn lemma_frame_reads_back(record: Seq<u8>, rest: Seq<u8>)
    requires
        record.len() <= u64::MAX,
    ensures
        starts_with_frame(frame(record) + rest),
        announced(frame(record) + rest) == record.len(),
        (frame(record) + rest).subrange(8, 8 + record.len() as int) == record,
        (frame(record) + rest).subrange(8 + record.len() as int, (frame(record) + rest).len() as int)
            == rest,
        is_single(frame(record)),
{
    lemma_auto_spec_u64_to_from_le_bytes();
    let head = spec_u64_to_le_bytes(record.len() as u64);
    let file = frame(record) + rest;
    assert(file.subrange(0, 8) =~= head);
    assert(file.subrange(8, 8 + record.len() as int) =~= record);
    assert(file.subrange(8 + record.len() as int, file.len() as int) =~= rest);
    assert(frame(record).subrange(0, 8) =~= head);
}

/// Reading a file that was written record by record gives those records back.
pub proof fn lemma_parse_frames(records: Seq<Seq<u8>>)
    requires
        forall|i: int| 0 <= i < records.len() ==> (#[trigger] records[i]).len() <= u64::MAX,
    ensures
        parse_all(frames(records)) == records,
    decreases records.len(),
{
    if records.len() == 0 {
        assert(parse_all(frames(records)) =~= records);
    } else {
        let first = records.first();
        let rest = records.drop_first();
        lemma_frame_reads_back(first, frames(rest));
        lemma_parse_frames(rest);
        assert(parse_all(frames(records)) =~= seq![first] + rest);
        assert(seq![first] + rest =~= records);
    }
}

/// A file of records with one more frame behind it holds one more record.
pub proof fn lemma_frames_push(records: Seq<Seq<u8>>, record: Seq<u8>)
    ensures
        frames(records.push(record)) == frames(records) + frame(record),
    decreases records.len(),
{
    if records.len() == 0 {
        assert(records.push(record).drop_first() =~= Seq::<Seq<u8>>::empty());
        assert(records.push(record).first() == record);
        assert(frames(records.push(record).drop_first()) =~= Seq::<u8>::empty());
        assert(frames(records.push(record)) =~= frame(record));
        assert(frames(records) + frame(record) =~= frame(record));
    } else {
        let rest = records.drop_first();
        lemma_frames_push(rest, record);
        assert(records.push(record).drop_first() =~= rest.push(record));
        assert(records.push(record).first() == records.first());
        assert(frames(records.push(record)) =~= frames(records) + frame(record));
    }
}

/// Appending one record to a file of records and reading the file back gives
/// the old records and the new one, in order.
pub proof fn lemma_append_then_read(records: Seq<Seq<u8>>, record: Seq<u8>)
    requires
        forall|i: int| 0 <= i < records.len() ==> (#[trigger] records[i]).len() <= u64::MAX,
        record.len() <= u64::MAX,
    ensures
        parse_all(frames(records) + frame(record)) == records.push(record),
{
    lemma_frames_push(records, record);
    lemma_parse_frames(records.push(record));
}

/// The content of a file that holds nothing yet.
pub fn init_empty() -> (file: Vec<u8>)
    ensures
        file@ == frames(Seq::empty()),
{
    Vec::new()
}

/// The content of a file that holds exactly the given record.
pub fn init_one(record: &[u8]) -> (file: Vec<u8>)
    ensures
        file@ == frame(record@),
{
    let mut file = Vec::new();
    append_one(&mut file, record);
    assert(file@ =~= frame(record@));
    file
}

/// Adds one record at the end of a file.
pub fn append_one(file: &mut Vec<u8>, record: &[u8])
    ensures
        final(file)@ == old(file)@ + frame(record@),
{
    let mut head = u64_to_le_bytes(record.len() as u64);
    file.append(&mut head);
    file.extend_from_slice(record);
    assert(file@ =~= old(file)@ + frame(record@));
}

/// Reads a file that is expected to hold exactly one record.
pub fn read_one(file: &[u8]) -> (record: Option<Vec<u8>>)
    ensures
        record is Some <==> is_single(file@),
        record matches Some(r) ==> r@ == file@.subrange(8, file@.len() as int) && file@ == frame(
            r@,
        ),
{
    if file.len() < 8 {
        return None;
    }
    let n = u64_from_le_bytes(slice_subrange(file, 0, 8));
    if n != (file.len() - 8) as u64 {
        return None;
    }
    let r = slice_to_vec(slice_subrange(file, 8, file.len()));
    proof {
        lemma_auto_spec_u64_to_from_le_bytes();
        assert(file@.subrange(0, 8).len() == 8);
        assert(spec_u64_to_le_bytes(n) == file@.subrange(0, 8));
        assert(file@ =~= frame(r@));
    }
    Some(r)
}

/// Reads every record of a file, in order, up to the first incomplete frame.
pub fn read_all(file: &[u8]) -> (records: Vec<Vec<u8>>)
    ensures
        contents(records@) == parse_all(file@),
{
    let mut records: Vec<Vec<u8>> = Vec::new();
    let mut pos: usize = 0;
    let mut done = false;
    assert(file@.subrange(0, file@.len() as int) =~= file@);
    assert(contents(records@) =~= Seq::<Seq<u8>>::empty());
    while !done
        invariant
            pos <= file.len(),
            parse_all(file@) == contents(records@) + (if done {
                Seq::<Seq<u8>>::empty()
            } else {
                parse_all(file@.subrange(pos as int, file@.len() as int))
            }),
        decreases file.len() - pos + (if done { 0int } else { 1int }),
    {
        let ghost rest = file@.subrange(pos as int, file@.len() as int);
        if file.len() - pos < 8 {
            done = true;
        } else {
            let n = u64_from_le_bytes(slice_subrange(file, pos, pos + 8));
            assert(file@.subrange(pos as int, pos + 8) =~= rest.subrange(0, 8));
            if n > (file.len() - pos - 8) as u64 {
                done = true;
            } else {
                let len = n as usize;
                let r = slice_to_vec(slice_subrange(file, pos + 8, pos + 8 + len));
                proof {
                    assert(r@ =~= rest.subrange(8, 8 + announced(rest)));
                    assert(file@.subrange(pos + 8 + len, file@.len() as int) =~= rest.subrange(
                        8 + announced(rest),
                        rest.len() as int,
                    ));
                    assert(contents(records@.push(r)) =~= contents(records@).push(r@));
                    assert(contents(records@).push(r@) + parse_all(
                        file@.subrange(pos + 8 + len, file@.len() as int),
                    ) =~= contents(records@) + parse_all(rest));
                }
                records.push(r);
                pos = pos + 8 + len;
            }
        }
    }
    assert(contents(records@) + Seq::<Seq<u8>>::empty() =~= contents(records@));
    records
}

/// Whether `records` are the records of a file that follow the first record
/// that the predicate answers with `true`, where `all` are the records of
/// the file as the predicate saw them and `n` is the position of that
/// record. The predicate is asked record by record up to that one; where it
/// answers none with `true`, `n` is the number of records and nothing
/// follows.
pub open spec fn follows_first_hit<F: Fn(&Vec<u8>) -> bool>(
    found: F,
    all: Seq<Vec<u8>>,
    n: int,
    records: Seq<Seq<u8>>,
) -> bool {
    &&& 0 <= n <= all.len()
    &&& forall|i: int| 0 <= i < n ==> call_ensures(found, (&#[trigger] all[i],), false)
    &&& n < all.len() ==> call_ensures(found, (&all[n],), true)
    &&& records == (if n < all.len() {
        contents(all).subrange(n + 1, all.len() as int)
    } else {
        Seq::empty()
    })
}

/// Reads the records of a file that follow the first record that the
/// predicate answers with `true`.
pub fn read_after<F: Fn(&Vec<u8>) -> bool>(file: &[u8], found: F) -> (records: Vec<Vec<u8>>)
    requires
        forall|r: &Vec<u8>| call_requires(found, (r,)),
    ensures
        exists|all: Seq<Vec<u8>>, n: int|
            contents(all) == parse_all(file@) && #[trigger] follows_first_hit(
                found,
                all,
                n,
                contents(records@),
            ),
{
    let mut all = read_all(file);
    let ghost whole = all@;
    let mut n: usize = 0;
    while n < all.len()
        invariant
            n <= all.len(),
            all@ == whole,
            contents(whole) == parse_all(file@),
            forall|r: &Vec<u8>| call_requires(found, (r,)),
            forall|i: int| 0 <= i < n ==> call_ensures(found, (&#[trigger] whole[i],), false),
        decreases all.len() - n,
    {
        if found(&all[n]) {
            let records = all.split_off(n + 1);
            assert(contents(records@) =~= contents(whole).subrange(n + 1, whole.len() as int));
            assert(follows_first_hit(found, whole, n as int, contents(records@)));
            return records;
        }
        n += 1;
    }
    let records: Vec<Vec<u8>> = Vec::new();
    assert(contents(records@) =~= Seq::<Seq<u8>>::empty());
    assert(follows_first_hit(found, whole, n as int, contents(records@)));
    records
}

} // verus!
