use vstd::prelude::*;

verus! {

/// Index of the first byte `c` in `s`, or the length of `s` when it holds none.
pub open spec fn find_byte(s: Seq<u8>, c: u8) -> nat
    decreases s.len(),
{
    if s.len() == 0 {
        0
    } else if s[0] == c {
        0
    } else {
        1 + find_byte(s.drop_first(), c)
    }
}

/// The pieces of `s` between the bytes `c`, in order; one piece when `s` holds no `c`.
pub open spec fn split_spec(s: Seq<u8>, c: u8) -> Seq<Seq<u8>>
    decreases s.len(),
{
    let f = find_byte(s, c);
    if f >= s.len() {
        seq![s]
    } else {
        seq![s.take(f as int)] + split_spec(s.skip(f + 1int), c)
    }
}

pub open spec fn views(v: Seq<Vec<u8>>) -> Seq<Seq<u8>> {
    v.map_values(|x: Vec<u8>| x@)
}

pub proof fn lemma_find_byte(s: Seq<u8>, c: u8)
    ensures
        find_byte(s, c) <= s.len(),
        forall|i: int| 0 <= i < find_byte(s, c) ==> s[i] != c,
        find_byte(s, c) < s.len() ==> s[find_byte(s, c) as int] == c,
    decreases s.len(),
{
    if s.len() > 0 && s[0] != c {
        lemma_find_byte(s.drop_first(), c);
        assert forall|i: int| 0 <= i < find_byte(s, c) implies s[i] != c by {
            if i > 0 {
                assert(s[i] == s.drop_first()[i - 1]);
            }
        }
    }
}

pub proof fn lemma_find_byte_is(s: Seq<u8>, c: u8, k: nat)
    requires
        k <= s.len(),
        forall|i: int| 0 <= i < k ==> s[i] != c,
        k < s.len() ==> s[k as int] == c,
    ensures
        find_byte(s, c) == k,
    decreases s.len(),
{
    if s.len() > 0 && k > 0 {
        assert forall|i: int| 0 <= i < k - 1 implies s.drop_first()[i] != c by {
            assert(s.drop_first()[i] == s[i + 1]);
        }
        lemma_find_byte_is(s.drop_first(), c, (k - 1) as nat);
    }
}

proof fn lemma_split_prefix(cur: Seq<u8>, rest: Seq<u8>, c: u8)
    requires
        forall|i: int| 0 <= i < cur.len() ==> cur[i] != c,
        rest.len() > 0,
        rest[0] == c,
    ensures
        split_spec(cur + rest, c) == seq![cur] + split_spec(rest.drop_first(), c),
{
    let s = cur + rest;
    lemma_find_byte_is(s, c, cur.len());
    assert(s.take(cur.len() as int) =~= cur);
    assert(s.skip(cur.len() + 1int) =~= rest.drop_first());
}

proof fn lemma_split_none(cur: Seq<u8>, c: u8)
    requires
        forall|i: int| 0 <= i < cur.len() ==> cur[i] != c,
    ensures
        split_spec(cur, c) == seq![cur],
{
    lemma_find_byte_is(cur, c, cur.len());
}

/// The pieces of `s` between the bytes `c`.
pub fn split_bytes(s: &Vec<u8>, c: u8) -> (r: Vec<Vec<u8>>)
    ensures
        views(r@) == split_spec(s@, c),
{
    let mut r: Vec<Vec<u8>> = Vec::new();
    let mut cur: Vec<u8> = Vec::new();
    let mut i: usize = 0;
    assert(views(r@) + split_spec(cur@ + s@.skip(0), c) =~= split_spec(s@, c)) by {
        assert(cur@ + s@.skip(0) =~= s@);
    }
    while i < s.len()
        invariant
            i <= s@.len(),
            forall|j: int| 0 <= j < cur@.len() ==> cur@[j] != c,
            split_spec(s@, c) == views(r@) + split_spec(cur@ + s@.skip(i as int), c),
        decreases s@.len() - i,
    {
        let b = s[i];
        if b == c {
            proof {
                assert(s@.skip(i as int)[0] == c);
                lemma_split_prefix(cur@, s@.skip(i as int), c);
                assert(s@.skip(i as int).drop_first() =~= s@.skip(i + 1));
                assert(Seq::<u8>::empty() + s@.skip(i + 1) =~= s@.skip(i + 1));
            }
            let ghost old_r = r@;
            let ghost piece = cur@;
            r.push(cur);
            cur = Vec::new();
            proof {
                assert(views(r@) =~= views(old_r) + seq![piece]) by {
                    assert(views(r@) =~= views(old_r).push(piece));
                }
            }
            assert(split_spec(s@, c) == views(r@) + split_spec(cur@ + s@.skip(i + 1), c)) by {
                assert(cur@ + s@.skip(i + 1) =~= s@.skip(i + 1));
            }
        } else {
            proof {
                assert(cur@ + s@.skip(i as int) =~= cur@.push(b) + s@.skip(i + 1));
            }
            cur.push(b);
        }
        i = i + 1;
    }
    proof {
        assert(cur@ + s@.skip(i as int) =~= cur@);
        lemma_split_none(cur@, c);
    }
    let ghost old_r = r@;
    let ghost piece = cur@;
    r.push(cur);
    assert(views(r@) =~= views(old_r).push(piece));
    assert(views(old_r).push(piece) =~= views(old_r) + seq![piece]);
    r
}

} // verus!
