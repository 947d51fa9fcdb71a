//! What holds of the character-level helpers, for all texts.
use crate::text;
use vstd::prelude::*;

verus! {

/// The texts of a list are those of its strings, one for one.
pub proof fn lemma_texts_one_for_one(list: Seq<String>)
    ensures
        text::texts(list).len() == list.len(),
        forall|i: int| 0 <= i < list.len() ==> #[trigger] text::texts(list)[i] == list[i]@,
{
}

/// Whatever follows a prefix, the whole begins with it.
pub proof fn lemma_prefix_then_anything(prefix: Seq<char>, rest: Seq<char>)
    ensures
        text::begins_with(prefix + rest, prefix),
{
    assert((prefix + rest).take(prefix.len() as int) == prefix);
}

/// A text that begins with a prefix is that prefix and what follows it.
pub proof fn lemma_prefix_splits(s: Seq<char>, prefix: Seq<char>)
    requires
        text::begins_with(s, prefix),
    ensures
        s == prefix + s.skip(prefix.len() as int),
{
    assert(s == s.take(prefix.len() as int) + s.skip(prefix.len() as int));
}

/// Cutting trailing characters undoes appending any number of them: exactly the
/// run at the end goes, and nothing before it.
pub proof fn lemma_trim_end_undoes_padding(s: Seq<char>, c: char, n: nat)
    requires
        s.len() > 0 ==> s.last() != c,
    ensures
        text::trim_end(s + Seq::new(n, |i: int| c), c) == s,
    decreases n,
{
    let padded = s + Seq::new(n, |i: int| c);
    if n == 0 {
        assert(padded == s);
    } else {
        let shorter = Seq::new((n - 1) as nat, |i: int| c);
        assert(padded.drop_last() == s + shorter);
        lemma_trim_end_undoes_padding(s, c, (n - 1) as nat);
    }
}

/// Every text is what trimming leaves of it, and a run of the character that was
/// cut.
pub proof fn lemma_trim_end_cuts_a_run(s: Seq<char>, c: char)
    ensures
        text::trim_end(s, c).len() <= s.len(),
        s == text::trim_end(s, c) + Seq::new(
            (s.len() - text::trim_end(s, c).len()) as nat,
            |i: int| c,
        ),
        text::trim_end(s, c).len() > 0 ==> text::trim_end(s, c).last() != c,
    decreases s.len(),
{
    if s.len() > 0 && s.last() == c {
        let shorter = s.drop_last();
        lemma_trim_end_cuts_a_run(shorter, c);
        assert(s == text::trim_end(s, c) + Seq::new(
            (s.len() - text::trim_end(s, c).len()) as nat,
            |i: int| c,
        )) by {
            assert(s == shorter.push(c));
        }
    } else {
        assert(s == s + Seq::new(0, |i: int| c));
    }
}

/// One text stands before another exactly if they agree up to some place, at
/// which the first one ends or has the lower character.
pub proof fn lemma_before_is_lexicographic(a: Seq<char>, b: Seq<char>)
    ensures
        text::before(a, b) <==> exists|k: int|
            0 <= k <= a.len() && k < b.len() && #[trigger] a.take(k) == b.take(k) && (k == a.len()
                || a[k] < b[k]),
    decreases a.len(),
{
    if text::before(a, b) {
        if a.len() == 0 {
            assert(a.take(0) == b.take(0));
        } else if a[0] < b[0] {
            assert(a.take(0) == b.take(0));
        } else {
            lemma_before_is_lexicographic(a.drop_first(), b.drop_first());
            let s = a.drop_first();
            let t = b.drop_first();
            let k = choose|k: int|
                0 <= k <= s.len() && k < t.len() && #[trigger] s.take(k) == t.take(k) && (k
                    == s.len() || s[k] < t[k]);
            assert(a.take(k + 1) == b.take(k + 1)) by {
                assert(a.take(k + 1) == seq![a[0]] + s.take(k));
                assert(b.take(k + 1) == seq![b[0]] + t.take(k));
            }
        }
    }
    if exists|k: int|
        0 <= k <= a.len() && k < b.len() && #[trigger] a.take(k) == b.take(k) && (k == a.len()
            || a[k] < b[k]) {
        let k = choose|k: int|
            0 <= k <= a.len() && k < b.len() && #[trigger] a.take(k) == b.take(k) && (k == a.len()
                || a[k] < b[k]);
        if k > 0 {
            let s = a.drop_first();
            let t = b.drop_first();
            assert(a.take(k)[0] == b.take(k)[0]);
            assert(s.take(k - 1) == t.take(k - 1)) by {
                assert(s.take(k - 1) == a.take(k).drop_first());
                assert(t.take(k - 1) == b.take(k).drop_first());
            }
            lemma_before_is_lexicographic(s, t);
        }
    }
}

}
