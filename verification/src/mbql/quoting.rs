//! Quoting inside MBQL strings: a double quote is written as a backslash and a quote.
use vstd::prelude::*;

verus! {

/// `s` with every double quote preceded by a backslash.
pub open spec fn escaped(s: Seq<char>) -> Seq<char>
    decreases s.len(),
{
    if s.len() == 0 {
        Seq::empty()
    } else if s[0] == '"' {
        seq!['\\', '"'] + escaped(s.drop_first())
    } else {
        seq![s[0]] + escaped(s.drop_first())
    }
}

/// `s` with every backslash-quote pair, taken left to right without overlap, turned into a
/// double quote.
pub open spec fn unescaped(s: Seq<char>) -> Seq<char>
    decreases s.len(),
{
    if s.len() == 0 {
        Seq::empty()
    } else if s.len() >= 2 && s[0] == '\\' && s[1] == '"' {
        seq!['"'] + unescaped(s.skip(2))
    } else {
        seq![s[0]] + unescaped(s.drop_first())
    }
}

/// `s` holds no double quote.
pub open spec fn quote_free(s: Seq<char>) -> bool {
    forall|k: int| 0 <= k < s.len() ==> s[k] != '"'
}

/// `s` holds no backslash directly followed by a double quote.
pub open spec fn pair_free(s: Seq<char>) -> bool {
    forall|k: int| 0 <= k < s.len() - 1 ==> !(#[trigger] s[k] == '\\' && s[k + 1] == '"')
}

/// Escaping works piece by piece.
proof fn lemma_escaped_concat(a: Seq<char>, b: Seq<char>)
    ensures
        escaped(a + b) == escaped(a) + escaped(b),
    decreases a.len(),
{
    if a.len() == 0 {
        assert(a + b =~= b);
        assert(escaped(a) =~= Seq::<char>::empty());
        assert(escaped(a) + escaped(b) =~= escaped(b));
    } else {
        lemma_escaped_concat(a.drop_first(), b);
        assert((a + b).drop_first() =~= a.drop_first() + b);
        assert((a + b)[0] == a[0]);
        if a[0] == '"' {
            assert(escaped(a + b) =~= seq!['\\', '"'] + (escaped(a.drop_first()) + escaped(b)));
        } else {
            assert(escaped(a + b) =~= seq![a[0]] + (escaped(a.drop_first()) + escaped(b)));
        }
    }
}

/// A string without quotes escapes to itself.
proof fn lemma_escaped_quote_free(s: Seq<char>)
    requires
        quote_free(s),
    ensures
        escaped(s) == s,
    decreases s.len(),
{
    if s.len() == 0 {
        assert(escaped(s) =~= s);
    } else {
        assert(quote_free(s.drop_first())) by {
            assert forall|k: int| 0 <= k < s.drop_first().len() implies s.drop_first()[k] != '"' by {
                assert(s.drop_first()[k] == s[k + 1]);
            }
        }
        lemma_escaped_quote_free(s.drop_first());
        assert(s =~= seq![s[0]] + s.drop_first());
    }
}

/// Unescaping works piece by piece, where no backslash-quote pair straddles the cut.
proof fn lemma_unescaped_concat(a: Seq<char>, b: Seq<char>)
    requires
        !(a.len() > 0 && b.len() > 0 && a.last() == '\\' && b[0] == '"'),
    ensures
        unescaped(a + b) == unescaped(a) + unescaped(b),
    decreases a.len(),
{
    if a.len() == 0 {
        assert(a + b =~= b);
        assert(unescaped(a) =~= Seq::<char>::empty());
        assert(unescaped(a) + unescaped(b) =~= unescaped(b));
    } else if a.len() >= 2 && a[0] == '\\' && a[1] == '"' {
        lemma_unescaped_concat(a.skip(2), b);
        assert((a + b).skip(2) =~= a.skip(2) + b);
        assert(unescaped(a + b) =~= seq!['"'] + (unescaped(a.skip(2)) + unescaped(b)));
    } else {
        if a.len() == 1 {
            assert(a.drop_first() =~= Seq::<char>::empty());
            assert(a.last() == a[0]);
        } else {
            assert(a.drop_first().last() == a.last());
        }
        lemma_unescaped_concat(a.drop_first(), b);
        assert((a + b).drop_first() =~= a.drop_first() + b);
        assert((a + b)[0] == a[0]);
        assert(unescaped(a + b) =~= seq![a[0]] + (unescaped(a.drop_first()) + unescaped(b)));
    }
}

/// A string without backslash-quote pairs unescapes to itself.
proof fn lemma_unescaped_pair_free(s: Seq<char>)
    requires
        pair_free(s),
    ensures
        unescaped(s) == s,
    decreases s.len(),
{
    if s.len() == 0 {
        assert(unescaped(s) =~= s);
    } else {
        assert(!(s.len() >= 2 && s[0] == '\\' && s[1] == '"'));
        assert(pair_free(s.drop_first())) by {
            assert forall|k: int| 0 <= k < s.drop_first().len() - 1 implies !(#[trigger] s.drop_first()[k] == '\\'
                && s.drop_first()[k + 1] == '"') by {
                assert(s.drop_first()[k] == s[k + 1]);
                assert(s.drop_first()[k + 1] == s[k + 2]);
            }
        }
        lemma_unescaped_pair_free(s.drop_first());
        assert(s =~= seq![s[0]] + s.drop_first());
    }
}

/// `s` with every double quote preceded by a backslash: the quoting that MBQL strings use.
/// Runs of characters without quotes are copied whole.
pub fn escape_quotes(s: &str) -> (r: String)
    ensures
        r@ == escaped(s@),
{
    let ghost text = s@;
    let n: usize = s.unicode_len();
    let mut out = String::new();
    let mut start: usize = 0;
    let mut i: usize = 0;
    for c in it: s.chars()
        invariant
            it.seq() == text,
            text == s@,
            text.len() == n,
            i == it.index(),
            start <= i <= text.len(),
            out@ == escaped(text.take(start as int)),
            quote_free(text.subrange(start as int, i as int)),
    {
        proof {
            assert(i < n);
            assert(c == text[i as int]);
        }
        if c == '"' {
            let run = s.substring_char(start, i);
            out.append(run);
            out.append("\\\"");
            proof {
                reveal_strlit("\\\"");
                let run_s = text.subrange(start as int, i as int);
                lemma_escaped_quote_free(run_s);
                lemma_escaped_concat(text.take(start as int), run_s);
                assert(text.take(start as int) + run_s =~= text.take(i as int));
                lemma_escaped_concat(text.take(i as int), seq!['"']);
                assert(text.take(i as int) + seq!['"'] =~= text.take(i + 1));
                assert(escaped(seq!['"']) =~= seq!['\\', '"']) by {
                    assert(seq!['"'].drop_first() =~= Seq::<char>::empty());
                    assert(escaped(Seq::<char>::empty()) =~= Seq::<char>::empty());
                }
            }
            start = i + 1;
        }
        proof {
            assert forall|k: int| 0 <= k < text.subrange(start as int, i + 1).len()
                implies #[trigger] text.subrange(start as int, i + 1)[k] != '"' by {
                if start + k < i {
                    assert(text.subrange(start as int, i + 1)[k] == text.subrange(start as int, i as int)[k]);
                }
            }
        }
        i = i + 1;
    }
    let run = s.substring_char(start, i);
    out.append(run);
    proof {
        let run_s = text.subrange(start as int, i as int);
        lemma_escaped_quote_free(run_s);
        lemma_escaped_concat(text.take(start as int), run_s);
        assert(text.take(start as int) + run_s =~= text);
    }
    out
}

/// `s` with every backslash-quote pair turned into a double quote: how MBQL strings are read.
/// Pairs are taken left to right; a backslash that ends a pair cannot start another, so each
/// quote directly after a backslash closes one. Runs between pairs are copied whole.
pub fn unescape_quotes(s: &str) -> (r: String)
    ensures
        r@ == unescaped(s@),
{
    let ghost text = s@;
    let n: usize = s.unicode_len();
    let mut out = String::new();
    let mut start: usize = 0;
    let mut i: usize = 0;
    let mut after_backslash: bool = false;
    for c in it: s.chars()
        invariant
            it.seq() == text,
            text == s@,
            text.len() == n,
            i == it.index(),
            start <= i <= text.len(),
            start == 0 || text[start - 1] == '"',
            out@ == unescaped(text.take(start as int)),
            pair_free(text.subrange(start as int, i as int)),
            after_backslash == (i > 0 && text[i - 1] == '\\'),
    {
        proof {
            assert(i < n);
            assert(c == text[i as int]);
        }
        if c == '"' && after_backslash {
            let run = s.substring_char(start, i - 1);
            out.append(run);
            out.append("\"");
            proof {
                reveal_strlit("\"");
                let head = text.take(start as int);
                let run_s = text.subrange(start as int, i - 1);
                let pair = seq!['\\', '"'];
                assert(pair_free(run_s)) by {
                    assert forall|k: int| 0 <= k < run_s.len() - 1 implies !(#[trigger] run_s[k] == '\\'
                        && run_s[k + 1] == '"') by {
                        assert(run_s[k] == text.subrange(start as int, i as int)[k]);
                        assert(run_s[k + 1] == text.subrange(start as int, i as int)[k + 1]);
                    }
                }
                lemma_unescaped_pair_free(run_s);
                assert(unescaped(pair) =~= seq!['"']) by {
                    assert(pair.skip(2) =~= Seq::<char>::empty());
                    assert(unescaped(Seq::<char>::empty()) =~= Seq::<char>::empty());
                }
                lemma_unescaped_concat(run_s, pair);
                if start > 0 {
                    assert(head.last() == text[start - 1]);
                }
                lemma_unescaped_concat(head, run_s + pair);
                assert(head + (run_s + pair) =~= text.take(i + 1));
            }
            start = i + 1;
        }
        proof {
            let next = text.subrange(start as int, i + 1);
            assert forall|k: int| 0 <= k < next.len() - 1 implies !(#[trigger] next[k] == '\\'
                && next[k + 1] == '"') by {
                if start + k + 1 < i {
                    assert(next[k] == text.subrange(start as int, i as int)[k]);
                    assert(next[k + 1] == text.subrange(start as int, i as int)[k + 1]);
                } else {
                    assert(start + k + 1 == i);
                    assert(next[k] == text[i - 1]);
                    assert(next[k + 1] == text[i as int]);
                }
            }
        }
        after_backslash = c == '\\';
        i = i + 1;
    }
    let run = s.substring_char(start, i);
    out.append(run);
    proof {
        let head = text.take(start as int);
        let run_s = text.subrange(start as int, i as int);
        lemma_unescaped_pair_free(run_s);
        if start > 0 {
            assert(head.last() == text[start - 1]);
        }
        lemma_unescaped_concat(head, run_s);
        assert(head + run_s =~= text);
    }
    out
}

} // verus!
