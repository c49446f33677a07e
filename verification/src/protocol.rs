//! Framing for the two backend protocols: the binary subscribe request, and
//! the text protocol whose lines carry six comma-separated readings.
use vstd::prelude::*;

verus! {

/// The kinds of request the binary protocol knows.
#[derive(Clone, Copy, PartialEq, Eq, Structural, Debug)]
pub enum ReqTy {
    Subscribe,
}

/// The wire number of a request kind.
pub open spec fn req_ty_code(ty: ReqTy) -> u32 {
    match ty {
        ReqTy::Subscribe => 0,
    }
}

/// The size in bytes of one measurement on the wire: one 64-bit float.
pub const MEASUREMENT_SIZE: usize = 8;

/// The four bytes of a 32-bit integer in little-endian order.
pub open spec fn u32_le_bytes(v: u32) -> Seq<u8> {
    seq![(v % 256) as u8, ((v / 256) % 256) as u8, ((v / 65536) % 256) as u8, ((v / 16777216) % 256) as u8]
}

/// The bytes of a request header: the request kind's wire number as a
/// 32-bit integer in the machine's byte order. The only kind, `Subscribe`,
/// is `0`, whose four bytes are the same in either order.
pub fn encode_request(ty: ReqTy) -> (r: Vec<u8>)
    ensures
        r@ == u32_le_bytes(req_ty_code(ty)),
        r@ == u32_le_bytes(req_ty_code(ty)).reverse(),
{
    match ty {
        ReqTy::Subscribe => {
            let r = vec![0u8, 0u8, 0u8, 0u8];
            assert(r@ =~= u32_le_bytes(0));
            assert(r@ =~= u32_le_bytes(0).reverse());
            r
        },
    }
}

/// The byte that separates fields of a text line.
pub const SEPARATOR: u8 = 44;

/// The fields joined back together with a separator between each two.
pub open spec fn join_fields(fields: Seq<Seq<u8>>) -> Seq<u8>
    decreases fields.len(),
{
    if fields.len() == 0 {
        Seq::empty()
    } else if fields.len() == 1 {
        fields[0]
    } else {
        join_fields(fields.drop_last()) + seq![SEPARATOR] + fields.last()
    }
}

/// The contents of a list of byte vectors.
pub open spec fn contents(v: Seq<Vec<u8>>) -> Seq<Seq<u8>> {
    v.map_values(|f: Vec<u8>| f@)
}

/// No field holds the separator.
pub open spec fn separator_free(fields: Seq<Seq<u8>>) -> bool {
    forall|k: int| 0 <= k < fields.len() ==> !(#[trigger] fields[k]).contains(SEPARATOR)
}

proof fn lemma_join_push_byte(fields: Seq<Seq<u8>>, last: Seq<u8>, b: u8)
    ensures
        join_fields(fields.push(last.push(b))) == join_fields(fields.push(last)).push(b),
{
    let f1 = fields.push(last.push(b));
    let f0 = fields.push(last);
    assert(f1.drop_last() =~= fields);
    assert(f0.drop_last() =~= fields);
    if fields.len() == 0 {
        assert(f1[0] == last.push(b));
    } else {
        assert(join_fields(f1) =~= join_fields(fields) + seq![SEPARATOR] + last.push(b));
        assert(join_fields(f0) =~= join_fields(fields) + seq![SEPARATOR] + last);
    }
}

proof fn lemma_join_push_empty(fields: Seq<Seq<u8>>, last: Seq<u8>)
    ensures
        join_fields(fields.push(last).push(Seq::empty())) == join_fields(fields.push(last)).push(SEPARATOR),
{
    let f = fields.push(last).push(Seq::<u8>::empty());
    assert(f.drop_last() =~= fields.push(last));
    assert(join_fields(f) =~= join_fields(fields.push(last)) + seq![SEPARATOR] + Seq::<u8>::empty());
}

/// Splitting undoes joining: two lists of separator-free fields that join to
/// the same line are the same list, so `split_fields` applied to the joined
/// fields gives those fields back.
pub proof fn lemma_join_fields_injective(f1: Seq<Seq<u8>>, f2: Seq<Seq<u8>>)
    requires
        f1.len() >= 1,
        f2.len() >= 1,
        separator_free(f1),
        separator_free(f2),
        join_fields(f1) == join_fields(f2),
    ensures
        f1 == f2,
    decreases f1.len() + f2.len(),
{
    if f1.len() == 1 && f2.len() == 1 {
        assert(f1 =~= f2);
    } else if f1.len() == 1 {
        lemma_join_has_separator(f2);
        assert(f1[0].contains(SEPARATOR));
    } else if f2.len() == 1 {
        lemma_join_has_separator(f1);
        assert(f2[0].contains(SEPARATOR));
    } else {
        let j = join_fields(f1);
        let l1 = f1.last();
        let l2 = f2.last();
        let p1 = join_fields(f1.drop_last());
        let p2 = join_fields(f2.drop_last());
        assert(j == p1 + seq![SEPARATOR] + l1);
        assert(j == p2 + seq![SEPARATOR] + l2);
        assert(!l1.contains(SEPARATOR));
        assert(!l2.contains(SEPARATOR));
        if l1.len() < l2.len() {
            let pos = j.len() - l1.len() - 1;
            assert(j[pos] == SEPARATOR);
            assert(l2[pos - p2.len() - 1] == j[pos]);
            assert(l2.contains(SEPARATOR));
        } else if l2.len() < l1.len() {
            let pos = j.len() - l2.len() - 1;
            assert(j[pos] == SEPARATOR);
            assert(l1[pos - p1.len() - 1] == j[pos]);
            assert(l1.contains(SEPARATOR));
        }
        assert(l1.len() == l2.len());
        assert(p1.len() == p2.len());
        assert(l1 =~= l2) by {
            assert forall|k: int| 0 <= k < l1.len() implies l1[k] == l2[k] by {
                assert(l1[k] == j[p1.len() + 1 + k]);
                assert(l2[k] == j[p2.len() + 1 + k]);
            }
        }
        assert(p1 =~= p2) by {
            assert forall|k: int| 0 <= k < p1.len() implies p1[k] == p2[k] by {
                assert(p1[k] == j[k]);
                assert(p2[k] == j[k]);
            }
        }
        assert(separator_free(f1.drop_last()));
        assert(separator_free(f2.drop_last()));
        lemma_join_fields_injective(f1.drop_last(), f2.drop_last());
        assert(f1 =~= f1.drop_last().push(l1));
        assert(f2 =~= f2.drop_last().push(l2));
    }
}

proof fn lemma_join_has_separator(f: Seq<Seq<u8>>)
    requires
        f.len() >= 2,
    ensures
        join_fields(f).contains(SEPARATOR),
{
    let p = join_fields(f.drop_last());
    let j = join_fields(f);
    assert(j == p + seq![SEPARATOR] + f.last());
    assert(j[p.len() as int] == SEPARATOR);
}

/// Splits a line at every separator. The fields, joined back with the
/// separator, give the line again, and none holds the separator; so there
/// is one field more than the line has separators.
pub fn split_fields(line: &[u8]) -> (fields: Vec<Vec<u8>>)
    ensures
        fields@.len() >= 1,
        join_fields(contents(fields@)) == line@,
        separator_free(contents(fields@)),
{
    let mut done: Vec<Vec<u8>> = Vec::new();
    let mut cur: Vec<u8> = Vec::new();
    let mut i: usize = 0;
    while i < line.len()
        invariant
            i <= line@.len(),
            join_fields(contents(done@).push(cur@)) == line@.subrange(0, i as int),
            separator_free(contents(done@)),
            !cur@.contains(SEPARATOR),
        decreases line@.len() - i,
    {
        let b = line[i];
        if b == SEPARATOR {
            let ghost before = contents(done@);
            let ghost last = cur@;
            proof {
                lemma_join_push_empty(before, last);
            }
            done.push(cur);
            cur = Vec::new();
            proof {
                assert(contents(done@) =~= before.push(last));
                assert(contents(done@).push(cur@) =~= before.push(last).push(Seq::empty()));
                assert(line@.subrange(0, i + 1) =~= line@.subrange(0, i as int).push(b));
            }
        } else {
            let ghost before = contents(done@);
            let ghost last = cur@;
            proof {
                lemma_join_push_byte(before, last, b);
            }
            cur.push(b);
            proof {
                assert(contents(done@).push(cur@) =~= before.push(last.push(b)));
                assert(line@.subrange(0, i + 1) =~= line@.subrange(0, i as int).push(b));
                assert(!cur@.contains(SEPARATOR)) by {
                    assert forall|k: int| 0 <= k < cur@.len() implies cur@[k] != SEPARATOR by {
                        if k < last.len() {
                            assert(last[k] == cur@[k]);
                            assert(last.contains(cur@[k]) ==> cur@[k] != SEPARATOR);
                        }
                    }
                }
            }
        }
        i = i + 1;
    }
    let ghost before = contents(done@);
    done.push(cur);
    proof {
        assert(contents(done@) =~= before.push(cur@));
        assert(line@.subrange(0, i as int) =~= line@);
    }
    done
}

/// A field the protocol needs is missing from a line.
#[derive(Clone, Copy, PartialEq, Eq, Structural, Debug)]
pub enum FieldError {
    Missing(usize),
}

/// The value at `idx`, or the error that names the missing index.
pub fn get_fallible<T: Copy>(data: &[T], idx: usize) -> (r: Result<T, FieldError>)
    ensures
        idx < data@.len() ==> r == Ok::<T, FieldError>(data@[idx as int]),
        idx >= data@.len() ==> r == Err::<T, FieldError>(FieldError::Missing(idx)),
{
    if idx < data.len() {
        Ok(data[idx])
    } else {
        Err(FieldError::Missing(idx))
    }
}

/// One reading of the text protocol: acceleration along three axes and
/// rotation about them.
#[derive(PartialEq, Eq, Structural, Debug)]
pub struct Data<T> {
    pub x: T,
    pub y: T,
    pub z: T,
    pub a: T,
    pub b: T,
    pub c: T,
}

impl<T: Copy> Data<T> {
    /// Takes the six readings from the start of a line's values in the order
    /// x, y, z, a, b, c; values past the sixth are ignored. With fewer than
    /// six the error names the first missing index.
    pub fn from_fields(data: &[T]) -> (r: Result<Data<T>, FieldError>)
        ensures
            data@.len() >= 6 ==> r == Ok::<Data<T>, FieldError>(
                Data { x: data@[0], y: data@[1], z: data@[2], a: data@[3], b: data@[4], c: data@[5] },
            ),
            data@.len() < 6 ==> r == Err::<Data<T>, FieldError>(FieldError::Missing(data@.len() as usize)),
    {
        let x = get_fallible(data, 0)?;
        let y = get_fallible(data, 1)?;
        let z = get_fallible(data, 2)?;
        let a = get_fallible(data, 3)?;
        let b = get_fallible(data, 4)?;
        let c = get_fallible(data, 5)?;
        Ok(Data { x, y, z, a, b, c })
    }
}

} // verus!
