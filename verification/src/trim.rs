//! Dropping the blank entries at the end of a sequence.
use vstd::prelude::*;

verus! {

/// The length of `s` once its trailing blank entries are dropped.
pub open spec fn trimmed_len<T>(s: Seq<T>, blank: spec_fn(T) -> bool) -> nat
    decreases s.len(),
{
    if s.len() == 0 {
        0
    } else if blank(s.last()) {
        trimmed_len(s.drop_last(), blank)
    } else {
        s.len()
    }
}

/// `s` without its trailing blank entries.
pub open spec fn trim_trailing<T>(s: Seq<T>, blank: spec_fn(T) -> bool) -> Seq<T> {
    s.take(trimmed_len(s, blank) as int)
}

/// The concatenation of a sequence of byte strings, in order.
pub open spec fn concat_all(parts: Seq<Seq<u8>>) -> Seq<u8>
    decreases parts.len(),
{
    if parts.len() == 0 {
        Seq::empty()
    } else {
        concat_all(parts.drop_last()) + parts.last()
    }
}

/// Concatenation splits at any boundary between parts.
pub proof fn lemma_concat_all_split(parts: Seq<Seq<u8>>, k: int)
    requires
        0 <= k <= parts.len(),
    ensures
        concat_all(parts) == concat_all(parts.take(k)) + concat_all(parts.skip(k)),
    decreases parts.len(),
{
    if k == parts.len() {
        assert(parts.take(k) =~= parts);
        assert(parts.skip(k) =~= Seq::<Seq<u8>>::empty());
        assert(concat_all(parts) + Seq::<u8>::empty() =~= concat_all(parts));
    } else {
        let d = parts.drop_last();
        lemma_concat_all_split(d, k);
        assert(d.take(k) =~= parts.take(k));
        assert(parts.skip(k).drop_last() =~= d.skip(k));
        assert(parts.skip(k).last() == parts.last());
        assert(concat_all(parts.skip(k)) == concat_all(d.skip(k)) + parts.last());
        assert(concat_all(parts) =~= concat_all(parts.take(k)) + concat_all(parts.skip(k)));
    }
}

/// Part `k` sits in the concatenation right after the parts before it.
pub proof fn lemma_concat_all_part(parts: Seq<Seq<u8>>, k: int)
    requires
        0 <= k < parts.len(),
    ensures
        ({
            let start = concat_all(parts.take(k)).len() as int;
            &&& start + parts[k].len() <= concat_all(parts).len()
            &&& concat_all(parts).subrange(start, start + parts[k].len()) == parts[k]
        }),
{
    lemma_concat_all_split(parts, k);
    let rest = parts.skip(k);
    lemma_concat_all_split(rest, 1);
    assert(rest.take(1) =~= seq![parts[k]]);
    let one = seq![parts[k]];
    assert(one.drop_last() =~= Seq::<Seq<u8>>::empty());
    assert(concat_all(one.drop_last()) =~= Seq::<u8>::empty());
    assert(one.last() == parts[k]);
    assert(concat_all(one) == concat_all(one.drop_last()) + one.last());
    assert(concat_all(one) =~= parts[k]);
    let start = concat_all(parts.take(k)).len() as int;
    assert(concat_all(parts).subrange(start, start + parts[k].len()) =~= parts[k]);
}

/// When every part has length `n`, the parts before `k` take `n * k` bytes.
pub proof fn lemma_concat_all_uniform(parts: Seq<Seq<u8>>, n: int)
    requires
        forall|i: int| 0 <= i < parts.len() ==> #[trigger] parts[i].len() == n,
    ensures
        concat_all(parts).len() == n * parts.len(),
    decreases parts.len(),
{
    if parts.len() > 0 {
        lemma_concat_all_uniform(parts.drop_last(), n);
        assert(n * parts.len() == n * (parts.len() - 1) + n) by (nonlinear_arith);
    }
}

/// Trimming keeps a prefix that is empty or ends in a non-blank entry, and drops only blank
/// entries.
pub proof fn lemma_trim_trailing<T>(s: Seq<T>, blank: spec_fn(T) -> bool)
    ensures
        trimmed_len(s, blank) <= s.len(),
        trimmed_len(s, blank) == 0 || !blank(s[trimmed_len(s, blank) - 1]),
        forall|i: int| trimmed_len(s, blank) <= i < s.len() ==> blank(#[trigger] s[i]),
    decreases s.len(),
{
    if s.len() > 0 && blank(s.last()) {
        let t = s.drop_last();
        lemma_trim_trailing(t, blank);
        assert forall|i: int| trimmed_len(s, blank) <= i < s.len() implies blank(#[trigger] s[i]) by {
            if i < s.len() - 1 {
                assert(s[i] == t[i]);
            }
        }
        if trimmed_len(s, blank) > 0 {
            assert(s[trimmed_len(s, blank) - 1] == t[trimmed_len(t, blank) - 1]);
        }
    }
}

/// Dropping a blank last entry does not change the trimmed sequence.
pub proof fn lemma_trim_drop_blank<T>(s: Seq<T>, blank: spec_fn(T) -> bool)
    requires
        s.len() > 0,
        blank(s.last()),
    ensures
        trim_trailing(s, blank) == trim_trailing(s.drop_last(), blank),
{
    let t = s.drop_last();
    lemma_trim_trailing(t, blank);
    assert(trim_trailing(s, blank) =~= trim_trailing(t, blank));
}

/// A sequence that is empty or ends in a non-blank entry is left as it is.
pub proof fn lemma_trim_untrimmed<T>(s: Seq<T>, blank: spec_fn(T) -> bool)
    requires
        s.len() == 0 || !blank(s.last()),
    ensures
        trim_trailing(s, blank) == s,
{
    assert(s.take(s.len() as int) =~= s);
}

/// Trimming twice drops nothing more than trimming once.
pub proof fn lemma_trim_idempotent<T>(s: Seq<T>, blank: spec_fn(T) -> bool)
    ensures
        trim_trailing(trim_trailing(s, blank), blank) == trim_trailing(s, blank),
{
    lemma_trim_trailing(s, blank);
    let t = trim_trailing(s, blank);
    if t.len() > 0 {
        assert(t.last() == s[trimmed_len(s, blank) - 1]);
    }
    lemma_trim_untrimmed(t, blank);
}

} // verus!
