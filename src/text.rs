//! Text utilities over character sequences: lexicographic order and sorting.
use vstd::prelude::*;
use vstd::relations::{sorted_by, total_ordering};

verus! {

/// Lexicographic order on character sequences by code point, which is the
/// order of `String`'s `Ord` (UTF-8 byte order agrees with code point order).
pub open spec fn text_leq(a: Seq<char>, b: Seq<char>) -> bool
    decreases a.len(),
{
    if a.len() == 0 {
        true
    } else if b.len() == 0 {
        false
    } else if a[0] != b[0] {
        a[0] < b[0]
    } else {
        text_leq(a.drop_first(), b.drop_first())
    }
}

/// `text_leq` as a relation.
pub open spec fn text_order() -> spec_fn(Seq<char>, Seq<char>) -> bool {
    |a: Seq<char>, b: Seq<char>| text_leq(a, b)
}

/// The sequence sorted in lexicographic order.
pub open spec fn sorted_texts(s: Seq<Seq<char>>) -> Seq<Seq<char>> {
    s.sort_by(text_order())
}

proof fn lemma_leq_reflexive(a: Seq<char>)
    ensures
        text_leq(a, a),
    decreases a.len(),
{
    if a.len() > 0 {
        lemma_leq_reflexive(a.drop_first());
    }
}

proof fn lemma_leq_antisymmetric(a: Seq<char>, b: Seq<char>)
    requires
        text_leq(a, b),
        text_leq(b, a),
    ensures
        a == b,
    decreases a.len(),
{
    if a.len() > 0 && b.len() > 0 {
        if a[0] == b[0] {
            lemma_leq_antisymmetric(a.drop_first(), b.drop_first());
            assert(a =~= seq![a[0]] + a.drop_first());
            assert(b =~= seq![b[0]] + b.drop_first());
        }
    } else {
        assert(a =~= b);
    }
}

proof fn lemma_leq_transitive(a: Seq<char>, b: Seq<char>, c: Seq<char>)
    requires
        text_leq(a, b),
        text_leq(b, c),
    ensures
        text_leq(a, c),
    decreases a.len(),
{
    if a.len() > 0 && b.len() > 0 && c.len() > 0 {
        if a[0] == b[0] && b[0] == c[0] {
            lemma_leq_transitive(a.drop_first(), b.drop_first(), c.drop_first());
        } else if a[0] != c[0] {
        }
    }
}

proof fn lemma_leq_connected(a: Seq<char>, b: Seq<char>)
    ensures
        text_leq(a, b) || text_leq(b, a),
    decreases a.len(),
{
    if a.len() > 0 && b.len() > 0 {
        if a[0] == b[0] {
            lemma_leq_connected(a.drop_first(), b.drop_first());
        }
    }
}

/// `text_leq` is a total order.
pub proof fn lemma_text_leq_total()
    ensures
        total_ordering(text_order()),
{
    let leq = text_order();
    assert forall|a: Seq<char>| #[trigger] leq(a, a) by {
        lemma_leq_reflexive(a);
    }
    assert forall|a: Seq<char>, b: Seq<char>| #[trigger] leq(a, b) && #[trigger] leq(b, a) implies a
        == b by {
        lemma_leq_antisymmetric(a, b);
    }
    assert forall|a: Seq<char>, b: Seq<char>, c: Seq<char>| #[trigger] leq(a, b) && #[trigger] leq(
        b,
        c,
    ) implies leq(a, c) by {
        lemma_leq_transitive(a, b, c);
    }
    assert forall|a: Seq<char>, b: Seq<char>| #[trigger] leq(a, b) || #[trigger] leq(b, a) by {
        lemma_leq_connected(a, b);
    }
}

/// Two sequences holding the same texts, in any order, sort to the same result.
pub proof fn lemma_sorted_texts_order_independent(a: Seq<Seq<char>>, b: Seq<Seq<char>>)
    requires
        a.to_multiset() == b.to_multiset(),
    ensures
        sorted_texts(a) == sorted_texts(b),
{
    let leq = text_order();
    lemma_text_leq_total();
    a.lemma_sort_by_ensures(leq);
    b.lemma_sort_by_ensures(leq);
    vstd::seq_lib::lemma_sorted_unique(sorted_texts(a), sorted_texts(b), leq);
}

/// Whether `p` is a prefix of `s`.
pub open spec fn is_prefix(p: Seq<char>, s: Seq<char>) -> bool {
    p.len() <= s.len() && s.subrange(0, p.len() as int) == p
}

/// Tests whether `p` is a prefix of `s`.
pub fn has_prefix(s: &str, p: &str) -> (r: bool)
    ensures
        r == is_prefix(p@, s@),
{
    let ls = s.unicode_len();
    let lp = p.unicode_len();
    if lp > ls {
        return false;
    }
    let mut i: usize = 0;
    while i < lp
        invariant
            ls == s@.len(),
            lp == p@.len(),
            lp <= ls,
            i <= lp,
            s@.subrange(0, i as int) == p@.subrange(0, i as int),
        decreases lp - i,
    {
        if s.get_char(i) != p.get_char(i) {
            assert(s@.subrange(0, lp as int)[i as int] != p@[i as int]);
            return false;
        }
        assert(s@.subrange(0, i + 1) =~= s@.subrange(0, i as int).push(s@[i as int]));
        assert(p@.subrange(0, i + 1) =~= p@.subrange(0, i as int).push(p@[i as int]));
        i = i + 1;
    }
    assert(p@.subrange(0, lp as int) =~= p@);
    true
}

/// The text of the single character at `i`.
pub fn char_at(s: &str, i: usize) -> (r: &str)
    requires
        i < s@.len() <= usize::MAX,
    ensures
        r@ == seq![s@[i as int]],
{
    let r = s.substring_char(i, i + 1);
    assert(r@ =~= seq![s@[i as int]]);
    r
}

/// The text with every line break written as a carriage return and a line feed.
pub open spec fn crlf_text(s: Seq<char>) -> Seq<char>
    decreases s.len(),
{
    if s.len() == 0 {
        Seq::empty()
    } else if s.last() == '\n' {
        crlf_text(s.drop_last()) + seq!['\r', '\n']
    } else {
        crlf_text(s.drop_last()).push(s.last())
    }
}

/// A documentation text in the host's line-break convention: with `crlf`,
/// every line break becomes a carriage return and a line feed; otherwise
/// the text is unchanged.
pub fn doc_text(text: &str, crlf: bool) -> (r: String)
    ensures
        r@ == if crlf { crlf_text(text@) } else { text@ },
{
    if !crlf {
        return String::from_str(text);
    }
    let n = text.unicode_len();
    let mut out = String::new();
    let mut i: usize = 0;
    while i < n
        invariant
            n == text@.len(),
            i <= n,
            out@ == crlf_text(text@.subrange(0, i as int)),
        decreases n - i,
    {
        let c = text.get_char(i);
        let ghost pre = text@.subrange(0, i + 1);
        assert(pre.drop_last() =~= text@.subrange(0, i as int));
        if c == '\n' {
            proof {
                reveal_strlit("\r\n");
                assert("\r\n"@ =~= seq!['\r', '\n']);
            }
            out.append("\r\n");
        } else {
            out.append(char_at(text, i));
        }
        assert(out@ =~= crlf_text(pre));
        i = i + 1;
    }
    assert(text@.subrange(0, n as int) =~= text@);
    out
}

/// Compares two texts in lexicographic order.
pub fn text_le(a: &str, b: &str) -> (r: bool)
    ensures
        r == text_leq(a@, b@),
{
    let la = a.unicode_len();
    let lb = b.unicode_len();
    let mut i: usize = 0;
    assert(a@.subrange(0, la as int) =~= a@);
    assert(b@.subrange(0, lb as int) =~= b@);
    while i < la && i < lb
        invariant
            la == a@.len(),
            lb == b@.len(),
            i <= la,
            i <= lb,
            a@.subrange(0, i as int) == b@.subrange(0, i as int),
            text_leq(a@, b@) == text_leq(a@.subrange(i as int, la as int), b@.subrange(i as int, lb as int)),
        decreases la - i,
    {
        let ca = a.get_char(i);
        let cb = b.get_char(i);
        let ghost sa = a@.subrange(i as int, la as int);
        let ghost sb = b@.subrange(i as int, lb as int);
        assert(sa[0] == ca && sb[0] == cb);
        if ca != cb {
            return ca < cb;
        }
        assert(sa.drop_first() =~= a@.subrange(i + 1, la as int));
        assert(sb.drop_first() =~= b@.subrange(i + 1, lb as int));
        assert(a@.subrange(0, i + 1) =~= a@.subrange(0, i as int).push(ca));
        assert(b@.subrange(0, i + 1) =~= b@.subrange(0, i as int).push(cb));
        i = i + 1;
    }
    i == la
}

proof fn lemma_multiset_insert(s: Seq<Seq<char>>, i: int, x: Seq<char>)
    requires
        0 <= i <= s.len(),
    ensures
        s.insert(i, x).to_multiset() == s.to_multiset().insert(x),
{
    let a = s.subrange(0, i);
    let b = s.subrange(i, s.len() as int);
    assert(s =~= a + b);
    assert(s.insert(i, x) =~= a.push(x) + b);
    vstd::seq_lib::lemma_multiset_commutative(a, b);
    vstd::seq_lib::lemma_multiset_commutative(a.push(x), b);
    a.to_multiset_ensures();
    assert(s.insert(i, x).to_multiset() =~= s.to_multiset().insert(x));
}

/// Returns the texts sorted in lexicographic order.
pub fn sort_texts(v: &Vec<String>) -> (r: Vec<String>)
    ensures
        r.deep_view() == sorted_texts(v.deep_view()),
{
        let ghost all = v.deep_view();
    proof {
        lemma_text_leq_total();
    }
    let mut res: Vec<String> = Vec::new();
    let mut i: usize = 0;
    assert(res.deep_view().to_multiset() =~= all.subrange(0, 0).to_multiset()) by {
        broadcast use vstd::seq_lib::group_to_multiset_ensures;

        assert(res.deep_view() =~= all.subrange(0, 0));
    }
    while i < v.len()
        invariant
            i <= v.len(),
            all == v.deep_view(),
            total_ordering(text_order()),
            sorted_by(res.deep_view(), text_order()),
            res.deep_view().to_multiset() == all.subrange(0, i as int).to_multiset(),
        decreases v.len() - i,
    {
        let x = v[i].clone();
        let mut p: usize = 0;
        while p < res.len() && text_le(res[p].as_str(), x.as_str())
            invariant
                p <= res.len(),
                total_ordering(text_order()),
                sorted_by(res.deep_view(), text_order()),
                forall|k: int| 0 <= k < p ==> text_leq(#[trigger] res.deep_view()[k], x@),
            decreases res.len() - p,
        {
            assert(res.deep_view()[p as int] == res@[p as int]@);
            p = p + 1;
        }
        let ghost old_res = res.deep_view();
        proof {
            if p < res.len() {
                assert(old_res[p as int] == res@[p as int]@);
                assert(!text_leq(old_res[p as int], x@));
                lemma_leq_connected(old_res[p as int], x@);
                assert forall|k: int| p <= k < old_res.len() implies text_leq(x@, #[trigger] old_res[k]) by {
                    if k > p {
                        assert(text_order()(old_res[p as int], old_res[k]));
                        lemma_leq_transitive(x@, old_res[p as int], old_res[k]);
                    }
                }
            }
        }
        res.insert(p, x);
        proof {
            assert(res.deep_view() =~= old_res.insert(p as int, x@));
            lemma_multiset_insert(old_res, p as int, x@);
            assert(all.subrange(0, i + 1) =~= all.subrange(0, i as int).push(all[i as int]));
            all.subrange(0, i as int).to_multiset_ensures();
            let nr = res.deep_view();
            assert forall|a: int, b: int| 0 <= a < b < nr.len() implies #[trigger] text_order()(nr[a], nr[b]) by {
                if b < p {
                } else if b == p {
                } else if a < p {
                    assert(text_leq(nr[a], x@));
                    assert(text_leq(x@, old_res[b - 1]));
                    lemma_leq_transitive(nr[a], x@, old_res[b - 1]);
                } else if a == p {
                } else {
                    assert(text_order()(old_res[a - 1], old_res[b - 1]));
                }
            }
        }
        i = i + 1;
    }
    proof {
        assert(all.subrange(0, i as int) =~= all);
        all.lemma_sort_by_ensures(text_order());
        vstd::seq_lib::lemma_sorted_unique(res.deep_view(), sorted_texts(all), text_order());
    }
    res
}

} // verus!
