//! Splitting tuple-shaped text.
//!
//! Vectors and quaternions are written `(x,y,z)` and `(w,x,y,z)`.  The
//! functions here do the structural half of reading them back: ASCII
//! whitespace is trimmed, every leading `(` and trailing `)` is stripped,
//! and the remainder is split at commas — three fields for a vector, four
//! for a quaternion, anything else is an error.  Turning a field into a
//! number is the caller's business.

use vstd::prelude::*;

verus! {

/// Reading a vector failed: the text does not hold exactly three
/// comma-separated fields.
#[derive(Debug, PartialEq, Eq, Structural)]
pub struct ParseVec3Error;

/// Reading a quaternion failed: the text does not hold exactly four
/// comma-separated fields.
#[derive(Debug, PartialEq, Eq, Structural)]
pub struct ParseQuaternionError;

/// ASCII whitespace.
pub open spec fn is_ws(b: u8) -> bool {
    b == 32 || b == 9 || b == 10 || b == 13
}

/// The sequence without its longest prefix of bytes satisfying `pred`.
pub open spec fn drop_leading(s: Seq<u8>, pred: spec_fn(u8) -> bool) -> Seq<u8>
    decreases s.len(),
{
    if s.len() > 0 && pred(s[0]) {
        drop_leading(s.skip(1), pred)
    } else {
        s
    }
}

/// The sequence without its longest suffix of bytes satisfying `pred`.
pub open spec fn drop_trailing(s: Seq<u8>, pred: spec_fn(u8) -> bool) -> Seq<u8>
    decreases s.len(),
{
    if s.len() > 0 && pred(s.last()) {
        drop_trailing(s.drop_last(), pred)
    } else {
        s
    }
}

/// The text without surrounding ASCII whitespace, leading `(`s and
/// trailing `)`s.
pub open spec fn tuple_core(s: Seq<u8>) -> Seq<u8> {
    let trimmed = drop_trailing(drop_leading(s, |b: u8| is_ws(b)), |b: u8| is_ws(b));
    drop_trailing(drop_leading(trimmed, |b: u8| b == 40), |b: u8| b == 41)
}

/// The comma-separated fields of the text: one more field than there are
/// commas, each holding the bytes between two commas.
pub open spec fn split_commas(s: Seq<u8>) -> Seq<Seq<u8>>
    decreases s.len(),
{
    if s.len() == 0 {
        seq![Seq::<u8>::empty()]
    } else if s.last() == 44 {
        split_commas(s.drop_last()).push(Seq::<u8>::empty())
    } else {
        let r = split_commas(s.drop_last());
        r.update(r.len() - 1 as int, r.last().push(s.last()))
    }
}

/// The fields of the text once trimmed and stripped of parentheses.
pub open spec fn tuple_fields(s: Seq<u8>) -> Seq<Seq<u8>> {
    split_commas(tuple_core(s))
}

/// Splitting yields at least one field.
pub proof fn lemma_split_commas_len(s: Seq<u8>)
    ensures
        split_commas(s).len() >= 1,
    decreases s.len(),
{
    if s.len() > 0 {
        lemma_split_commas_len(s.drop_last());
    }
}

/// Dropping a leading run reaches exactly the first index that breaks the
/// predicate.
proof fn lemma_drop_leading_at(s: Seq<u8>, pred: spec_fn(u8) -> bool, i: int)
    requires
        0 <= i <= s.len(),
        forall|m: int| 0 <= m < i ==> pred(#[trigger] s[m]),
        i == s.len() || !pred(s[i]),
    ensures
        drop_leading(s, pred) == s.skip(i),
    decreases i,
{
    if i == 0 {
        assert(s.skip(0) =~= s);
    } else {
        assert(pred(s[0]));
        lemma_drop_leading_at(s.skip(1), pred, i - 1);
        assert(s.skip(1).skip(i - 1) =~= s.skip(i));
    }
}

/// Dropping a trailing run reaches exactly the last index that breaks the
/// predicate.
proof fn lemma_drop_trailing_at(s: Seq<u8>, pred: spec_fn(u8) -> bool, j: int)
    requires
        0 <= j <= s.len(),
        forall|m: int| j <= m < s.len() ==> pred(#[trigger] s[m]),
        j == 0 || !pred(s[j - 1]),
    ensures
        drop_trailing(s, pred) == s.take(j),
    decreases s.len() - j,
{
    if j == s.len() {
        if s.len() > 0 && pred(s.last()) {
            lemma_drop_trailing_at(s.drop_last(), pred, j - 1);
            assert(s.drop_last() =~= s.take(s.len() - 1 as int));
        } else {
            assert(s.take(j) =~= s);
        }
    } else {
        assert(pred(s[s.len() - 1 as int]));
        lemma_drop_trailing_at(s.drop_last(), pred, j);
        assert(s.drop_last().take(j) =~= s.take(j));
    }
}

/// The trimmed-and-stripped core of the text, as bytes.
fn core_bytes(text: &Vec<u8>) -> (r: Vec<u8>)
    ensures
        r@ == tuple_core(text@),
{
    let n = text.len();
    let mut i: usize = 0;
    while i < n && (text[i] == 32 || text[i] == 9 || text[i] == 10 || text[i] == 13)
        invariant
            i <= n,
            n == text@.len(),
            forall|m: int| 0 <= m < i ==> is_ws(#[trigger] text@[m]),
        decreases n - i,
    {
        i = i + 1;
    }
    let mut j: usize = n;
    while j > i && (text[j - 1] == 32 || text[j - 1] == 9 || text[j - 1] == 10 || text[j - 1]
        == 13)
        invariant
            i <= j <= n,
            n == text@.len(),
            forall|m: int| 0 <= m < i ==> is_ws(#[trigger] text@[m]),
            forall|m: int| j <= m < n ==> is_ws(#[trigger] text@[m]),
        decreases j,
    {
        j = j - 1;
    }
    proof {
        lemma_drop_leading_at(text@, |b: u8| is_ws(b), i as int);
        if j == i {
            lemma_drop_trailing_at(text@.skip(i as int), |b: u8| is_ws(b), 0);
        } else {
            lemma_drop_trailing_at(text@.skip(i as int), |b: u8| is_ws(b), j - i as int);
        }
    }
    let ghost trimmed = drop_trailing(
        drop_leading(text@, |b: u8| is_ws(b)),
        |b: u8| is_ws(b),
    );
    proof {
        assert(trimmed =~= text@.skip(i as int).take(j - i as int));
    }
    let mut a: usize = i;
    while a < j && text[a] == 40
        invariant
            i <= a <= j <= n,
            n == text@.len(),
            trimmed == text@.skip(i as int).take(j - i as int),
            forall|m: int| 0 <= m < a - i ==> trimmed[m] == 40,
        decreases j - a,
    {
        proof {
            assert(trimmed[a - i as int] == text@[a as int]);
        }
        a = a + 1;
    }
    let mut b: usize = j;
    while b > a && text[b - 1] == 41
        invariant
            a <= b <= j,
            i <= a,
            j <= n,
            n == text@.len(),
            trimmed == text@.skip(i as int).take(j - i as int),
            forall|m: int| 0 <= m < a - i ==> trimmed[m] == 40,
            forall|m: int| b - i <= m < j - i ==> trimmed[m] == 41,
        decreases b,
    {
        proof {
            assert(trimmed[b - 1 - i as int] == text@[b - 1 as int]);
        }
        b = b - 1;
    }
    proof {
        if a < j {
            assert(trimmed[a - i as int] == text@[a as int]);
        }
        lemma_drop_leading_at(trimmed, |bb: u8| bb == 40, a - i as int);
        let inner = trimmed.skip(a - i as int);
        if b == a {
            lemma_drop_trailing_at(inner, |bb: u8| bb == 41, 0);
        } else {
            assert(inner[b - 1 - a as int] == trimmed[b - 1 - i as int]);
            assert(inner[b - 1 - a as int] == text@[b - 1 as int]);
            lemma_drop_trailing_at(inner, |bb: u8| bb == 41, b - a as int);
        }
        assert(tuple_core(text@) =~= text@.subrange(a as int, b as int));
    }
    let mut r: Vec<u8> = Vec::new();
    let mut k: usize = a;
    while k < b
        invariant
            a <= k <= b <= n,
            n == text@.len(),
            r@ == text@.subrange(a as int, k as int),
        decreases b - k,
    {
        r.push(text[k]);
        proof {
            assert(text@.subrange(a as int, k + 1 as int) =~= text@.subrange(
                a as int,
                k as int,
            ).push(text@[k as int]));
        }
        k = k + 1;
    }
    proof {
        assert(r@ == tuple_core(text@));
    }
    r
}

/// Split the core at commas, in order.
fn split_fields(core: &Vec<u8>) -> (parts: Vec<Vec<u8>>)
    ensures
        parts@.len() == split_commas(core@).len(),
        forall|k: int|
            0 <= k < parts@.len() ==> (#[trigger] parts@[k])@ == split_commas(core@)[k],
{
    let n = core.len();
    let mut done: Vec<Vec<u8>> = Vec::new();
    let mut cur: Vec<u8> = Vec::new();
    let mut k: usize = 0;
    while k < n
        invariant
            k <= n,
            n == core@.len(),
            split_commas(core@.take(k as int)).len() == done@.len() + 1,
            forall|m: int|
                0 <= m < done@.len() ==> (#[trigger] done@[m])@ == split_commas(
                    core@.take(k as int),
                )[m],
            cur@ == split_commas(core@.take(k as int)).last(),
        decreases n - k,
    {
        proof {
            assert(core@.take(k + 1 as int).drop_last() =~= core@.take(k as int));
            assert(core@.take(k + 1 as int).last() == core@[k as int]);
            lemma_split_commas_len(core@.take(k as int));
        }
        if core[k] == 44 {
            done.push(cur);
            cur = Vec::new();
        } else {
            cur.push(core[k]);
        }
        k = k + 1;
    }
    proof {
        assert(core@.take(n as int) =~= core@);
        lemma_split_commas_len(core@);
    }
    done.push(cur);
    done
}

/// The three fields of a vector written `(x,y,z)`: the text is trimmed,
/// stripped of parentheses and split at commas, and succeeds exactly when
/// that yields three fields, handed back in order.
pub fn vec3_fields(text: &Vec<u8>) -> (r: Result<(Vec<u8>, Vec<u8>, Vec<u8>), ParseVec3Error>)
    ensures
        match r {
            Ok(f) => {
                &&& tuple_fields(text@).len() == 3
                &&& f.0@ == tuple_fields(text@)[0]
                &&& f.1@ == tuple_fields(text@)[1]
                &&& f.2@ == tuple_fields(text@)[2]
            },
            Err(e) => {
                &&& tuple_fields(text@).len() != 3
                &&& e == ParseVec3Error
            },
        },
{
    let core = core_bytes(text);
    let mut parts = split_fields(&core);
    if parts.len() != 3 {
        return Err(ParseVec3Error);
    }
    let c = parts.pop().unwrap();
    let b = parts.pop().unwrap();
    let a = parts.pop().unwrap();
    Ok((a, b, c))
}

/// The four fields of a quaternion written `(w,x,y,z)`, as `vec3_fields`.
pub fn quaternion_fields(text: &Vec<u8>) -> (r: Result<
    (Vec<u8>, Vec<u8>, Vec<u8>, Vec<u8>),
    ParseQuaternionError,
>)
    ensures
        match r {
            Ok(f) => {
                &&& tuple_fields(text@).len() == 4
                &&& f.0@ == tuple_fields(text@)[0]
                &&& f.1@ == tuple_fields(text@)[1]
                &&& f.2@ == tuple_fields(text@)[2]
                &&& f.3@ == tuple_fields(text@)[3]
            },
            Err(e) => {
                &&& tuple_fields(text@).len() != 4
                &&& e == ParseQuaternionError
            },
        },
{
    let core = core_bytes(text);
    let mut parts = split_fields(&core);
    if parts.len() != 4 {
        return Err(ParseQuaternionError);
    }
    let d = parts.pop().unwrap();
    let c = parts.pop().unwrap();
    let b = parts.pop().unwrap();
    let a = parts.pop().unwrap();
    Ok((a, b, c, d))
}

} // verus!
