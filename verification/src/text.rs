//! Text utilities: equality and ordering of strings, sorted string lists,
//! and the case conversions and quoting of the standard library.
use vstd::prelude::*;
use vstd::string::*;
use vstd::utf8::is_ascii_chars;

verus! {

/// Strict lexicographic order of character sequences, character by character
/// by code point, where a proper prefix comes first.  On strings this is the
/// order of `String`'s `Ord`, since UTF-8 keeps the order of code points.
pub open spec fn text_lt(a: Seq<char>, b: Seq<char>) -> bool
    decreases a.len(),
{
    if a.len() == 0 {
        b.len() > 0
    } else if b.len() == 0 {
        false
    } else if a[0] != b[0] {
        a[0] < b[0]
    } else {
        text_lt(a.drop_first(), b.drop_first())
    }
}

/// The views of a list of strings.
pub open spec fn texts(v: Seq<String>) -> Seq<Seq<char>> {
    v.map_values(|s: String| s@)
}

/// Every element comes strictly before every later one: sorted, without repetition.
pub open spec fn strictly_ascending(s: Seq<Seq<char>>) -> bool {
    forall|i: int, j: int| 0 <= i < j < s.len() ==> text_lt(#[trigger] s[i], #[trigger] s[j])
}

/// `s` holds exactly the members of `items`.
pub open spec fn holds_exactly(s: Seq<Seq<char>>, items: Set<Seq<char>>) -> bool {
    forall|t: Seq<char>| #[trigger] s.contains(t) <==> items.contains(t)
}

/// The sorted list, without repetition, of a set of texts.
pub open spec fn ascending_list(items: Set<Seq<char>>) -> Seq<Seq<char>> {
    choose|s: Seq<Seq<char>>| strictly_ascending(s) && holds_exactly(s, items)
}

/// No text comes before itself.
pub proof fn lemma_text_lt_irreflexive(a: Seq<char>)
    ensures
        !text_lt(a, a),
    decreases a.len(),
{
    if a.len() > 0 {
        lemma_text_lt_irreflexive(a.drop_first());
    }
}

/// Of two different texts, one comes first.
pub proof fn lemma_text_lt_total(a: Seq<char>, b: Seq<char>)
    requires
        a != b,
    ensures
        text_lt(a, b) || text_lt(b, a),
    decreases a.len(),
{
    if a.len() == 0 && b.len() == 0 {
        assert(a =~= b);
    }
    if a.len() > 0 && b.len() > 0 && a[0] == b[0] {
        if a.drop_first() == b.drop_first() {
            assert(a =~= seq![a[0]] + a.drop_first());
            assert(b =~= seq![b[0]] + b.drop_first());
        }
        lemma_text_lt_total(a.drop_first(), b.drop_first());
    }
}

/// The order is asymmetric.
pub proof fn lemma_text_lt_asymmetric(a: Seq<char>, b: Seq<char>)
    requires
        text_lt(a, b),
    ensures
        !text_lt(b, a),
    decreases a.len(),
{
    if a.len() > 0 && b.len() > 0 && a[0] == b[0] {
        lemma_text_lt_asymmetric(a.drop_first(), b.drop_first());
    }
}

/// The order is transitive.
pub proof fn lemma_text_lt_transitive(a: Seq<char>, b: Seq<char>, c: Seq<char>)
    requires
        text_lt(a, b),
        text_lt(b, c),
    ensures
        text_lt(a, c),
    decreases a.len(),
{
    if a.len() > 0 && b.len() > 0 && c.len() > 0 && a[0] == b[0] && b[0] == c[0] {
        lemma_text_lt_transitive(a.drop_first(), b.drop_first(), c.drop_first());
    }
}

proof fn lemma_text_lt_skip(a: Seq<char>, b: Seq<char>, i: int)
    requires
        0 <= i < a.len(),
        i < b.len(),
        a[i] == b[i],
    ensures
        text_lt(a.skip(i), b.skip(i)) == text_lt(a.skip(i + 1), b.skip(i + 1)),
{
    assert(a.skip(i).drop_first() =~= a.skip(i + 1));
    assert(b.skip(i).drop_first() =~= b.skip(i + 1));
}

/// Whether `a` comes strictly before `b` (`a < b` on strings).
pub fn text_less(a: &str, b: &str) -> (r: bool)
    ensures
        r == text_lt(a@, b@),
{
    let na = a.unicode_len();
    let nb = b.unicode_len();
    let mut i: usize = 0;
    assert(a@.skip(0) =~= a@);
    assert(b@.skip(0) =~= b@);
    while i < na && i < nb
        invariant
            na == a@.len(),
            nb == b@.len(),
            i <= na,
            i <= nb,
            text_lt(a@, b@) == text_lt(a@.skip(i as int), b@.skip(i as int)),
        decreases na - i,
    {
        let ca = a.get_char(i);
        let cb = b.get_char(i);
        if ca != cb {
            assert(a@.skip(i as int)[0] == ca);
            assert(b@.skip(i as int)[0] == cb);
            return ca < cb;
        }
        proof {
            lemma_text_lt_skip(a@, b@, i as int);
        }
        i = i + 1;
    }
    i < nb
}

/// Whether two strings hold the same characters (`a == b` on strings).
pub fn text_eq(a: &str, b: &str) -> (r: bool)
    ensures
        r == (a@ == b@),
{
    let na = a.unicode_len();
    let nb = b.unicode_len();
    if na != nb {
        return false;
    }
    let mut i: usize = 0;
    while i < na
        invariant
            na == a@.len(),
            nb == b@.len(),
            na == nb,
            i <= na,
            forall|j: int| 0 <= j < i ==> a@[j] == b@[j],
        decreases na - i,
    {
        let ca = a.get_char(i);
        let cb = b.get_char(i);
        if ca != cb {
            return false;
        }
        i = i + 1;
    }
    assert(a@ =~= b@);
    true
}

/// Two strictly ascending lists with the same members are the same list.
pub proof fn lemma_ascending_unique(a: Seq<Seq<char>>, b: Seq<Seq<char>>)
    requires
        strictly_ascending(a),
        strictly_ascending(b),
        forall|t: Seq<char>| #[trigger] a.contains(t) <==> b.contains(t),
    ensures
        a == b,
    decreases a.len(),
{
    if a.len() == 0 {
        if b.len() > 0 {
            assert(b.contains(b[0]));
            assert(a.contains(b[0]));
        }
        assert(a =~= b);
    } else {
        assert(a.contains(a[0]));
        assert(b.len() > 0);
        assert(b.contains(b[0]));
        assert(a.contains(b[0]));
        assert(b.contains(a[0]));
        if a[0] != b[0] {
            let k = choose|k: int| 0 <= k < b.len() && b[k] == a[0];
            let m = choose|m: int| 0 <= m < a.len() && a[m] == b[0];
            assert(k > 0);
            assert(m > 0);
            assert(text_lt(b[0], b[k]));
            assert(text_lt(a[0], a[m]));
            lemma_text_lt_asymmetric(a[0], b[0]);
            assert(false);
        }
        let ta = a.drop_first();
        let tb = b.drop_first();
        assert forall|t: Seq<char>| #[trigger] ta.contains(t) <==> tb.contains(t) by {
            if ta.contains(t) {
                let i = choose|i: int| 0 <= i < ta.len() && ta[i] == t;
                assert(a[i + 1] == t);
                assert(text_lt(a[0], a[i + 1]));
                lemma_text_lt_irreflexive(t);
                assert(a.contains(t));
                assert(b.contains(t));
                let j = choose|j: int| 0 <= j < b.len() && b[j] == t;
                assert(j != 0);
                assert(tb[j - 1] == t);
            }
            if tb.contains(t) {
                let i = choose|i: int| 0 <= i < tb.len() && tb[i] == t;
                assert(b[i + 1] == t);
                assert(text_lt(b[0], b[i + 1]));
                lemma_text_lt_irreflexive(t);
                assert(b.contains(t));
                assert(a.contains(t));
                let j = choose|j: int| 0 <= j < a.len() && a[j] == t;
                assert(j != 0);
                assert(ta[j - 1] == t);
            }
        }
        lemma_ascending_unique(ta, tb);
        assert(a =~= seq![a[0]] + ta);
        assert(b =~= seq![b[0]] + tb);
    }
}

/// A strictly ascending list of the members of `items` is the `ascending_list` of them.
pub proof fn lemma_is_ascending_list(s: Seq<Seq<char>>, items: Set<Seq<char>>)
    requires
        strictly_ascending(s),
        holds_exactly(s, items),
    ensures
        s == ascending_list(items),
{
    let c = ascending_list(items);
    assert(strictly_ascending(c) && holds_exactly(c, items));
    lemma_ascending_unique(s, c);
}

/// Adds `item` to a strictly ascending list, where it belongs, unless it is there already.
pub fn insert_ascending(list: &mut Vec<String>, item: String)
    requires
        strictly_ascending(texts(old(list)@)),
    ensures
        strictly_ascending(texts(final(list)@)),
        forall|t: Seq<char>|
            #[trigger] texts(final(list)@).contains(t) <==> (texts(old(list)@).contains(t) || t
                == item@),
{
    let ghost before = texts(list@);
    let n = list.len();
    let mut p: usize = 0;
    while p < n
        invariant
            n == list.len(),
            list@ == old(list)@,
            p <= n,
            forall|j: int| 0 <= j < p ==> text_lt(#[trigger] texts(list@)[j], item@),
        ensures
            p <= n,
            list@ == old(list)@,
            forall|j: int| 0 <= j < p ==> text_lt(#[trigger] texts(list@)[j], item@),
            p < n ==> !text_lt(texts(list@)[p as int], item@),
        decreases n - p,
    {
        if !text_less(list[p].as_str(), item.as_str()) {
            break;
        }
        p = p + 1;
    }
    if p < n && text_eq(list[p].as_str(), item.as_str()) {
        assert(texts(list@)[p as int] == item@);
        assert forall|t: Seq<char>|
            #[trigger] texts(list@).contains(t) <==> (before.contains(t) || t == item@) by {
            if t == item@ {
                assert(texts(list@)[p as int] == t);
            }
        }
        return;
    }
    let ghost x = item@;
    proof {
        if p < n {
            let y = before[p as int];
            assert(!text_lt(y, x));
            assert(y != x);
            lemma_text_lt_total(y, x);
            assert forall|k: int| p <= k < n implies text_lt(x, #[trigger] before[k]) by {
                if k > p {
                    assert(text_lt(before[p as int], before[k]));
                    lemma_text_lt_transitive(x, y, before[k]);
                }
            }
        }
    }
    list.insert(p, item);
    let ghost after = texts(list@);
    assert(after =~= before.insert(p as int, x));
    assert forall|i: int, j: int| 0 <= i < j < after.len() implies text_lt(
        #[trigger] after[i],
        #[trigger] after[j],
    ) by {
        if j < p {
            assert(after[i] == before[i] && after[j] == before[j]);
        } else if j == p {
            assert(after[i] == before[i]);
        } else if i < p {
            assert(after[i] == before[i] && after[j] == before[j - 1]);
            lemma_text_lt_transitive(before[i], x, before[j - 1]);
        } else if i == p {
            assert(after[j] == before[j - 1]);
        } else {
            assert(after[i] == before[i - 1] && after[j] == before[j - 1]);
        }
    }
    assert forall|t: Seq<char>| #[trigger] after.contains(t) <==> (before.contains(t) || t == x) by {
        if after.contains(t) {
            let i = choose|i: int| 0 <= i < after.len() && after[i] == t;
            if i < p {
                assert(before[i] == t);
            } else if i > p {
                assert(before[i - 1] == t);
            }
        }
        if before.contains(t) {
            let i = choose|i: int| 0 <= i < before.len() && before[i] == t;
            if i < p {
                assert(after[i] == t);
            } else {
                assert(after[i + 1] == t);
            }
        }
        if t == x {
            assert(after[p as int] == t);
        }
    }
}

/// What `str::to_lowercase` returns (Unicode lowercase mapping).
pub uninterp spec fn spec_to_lowercase(s: Seq<char>) -> Seq<char>;

/// What `str::to_uppercase` returns (Unicode uppercase mapping).
pub uninterp spec fn spec_to_uppercase(s: Seq<char>) -> Seq<char>;

/// What `format!("{:?}", s)` returns for a string `s` (quoted and escaped).
pub uninterp spec fn spec_debug_text(s: Seq<char>) -> Seq<char>;

/// The lowercase of an ASCII character.
pub open spec fn ascii_lower(c: char) -> char {
    if 'A' <= c <= 'Z' {
        ((c as u32) + 32) as char
    } else {
        c
    }
}

/// The uppercase of an ASCII character.
pub open spec fn ascii_upper(c: char) -> char {
    if 'a' <= c <= 'z' {
        ((c as u32) - 32) as char
    } else {
        c
    }
}

/// An ASCII text in lowercase.
pub open spec fn ascii_lowercase(s: Seq<char>) -> Seq<char> {
    s.map_values(|c: char| ascii_lower(c))
}

/// An ASCII text in uppercase.
pub open spec fn ascii_uppercase(s: Seq<char>) -> Seq<char> {
    s.map_values(|c: char| ascii_upper(c))
}

/// `str::to_lowercase`: the Unicode lowercase mapping of `s`.  On a string of
/// ASCII characters this maps `A`..`Z` to `a`..`z` and keeps every other
/// character, as the Unicode mapping does; of other strings nothing is stated.
#[verifier::external_body]
pub(crate) fn to_lowercase(s: &str) -> (r: String)
    ensures
        r@ == spec_to_lowercase(s@),
        is_ascii_chars(s@) ==> r@ == ascii_lowercase(s@),
{
    s.to_lowercase()
}

/// `str::to_uppercase`: the Unicode uppercase mapping of `s`.  On a string of
/// ASCII characters this maps `a`..`z` to `A`..`Z` and keeps every other
/// character, as the Unicode mapping does; of other strings nothing is stated.
#[verifier::external_body]
pub(crate) fn to_uppercase(s: &str) -> (r: String)
    ensures
        r@ == spec_to_uppercase(s@),
        is_ascii_chars(s@) ==> r@ == ascii_uppercase(s@),
{
    s.to_uppercase()
}

/// `format!("{:?}", s)` for a string: `s` in double quotes with its special
/// characters escaped.  The exact escaping is not stated.
#[verifier::external_body]
pub(crate) fn debug_text(s: &str) -> (r: String)
    ensures
        r@ == spec_debug_text(s@),
{
    format!("{:?}", s)
}

} // verus!
