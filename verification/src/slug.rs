//! Derivation of filesystem-safe directory names from document titles.

use vstd::prelude::*;
use crate::strutil::{
    chars_vec, lower_of, lowercase_str, string_from_chars, trim_str, trimmed_of,
};

verus! {

/// A character that may appear in a slug.
pub open spec fn slug_char_ok(c: char) -> bool {
    (97 <= (c as u32) && (c as u32) <= 122)  // 'a'..'z'
    || (48 <= (c as u32) && (c as u32) <= 57)  // '0'..'9'
    || c == '_' || c == '-'
}

/// Spaces become underscores; everything outside `[a-z0-9_-]` is dropped.
pub open spec fn slug_filter(s: Seq<char>) -> Seq<char>
    decreases s.len(),
{
    if s.len() == 0 {
        Seq::empty()
    } else {
        let rest = slug_filter(s.drop_first());
        if s[0] == ' ' {
            seq!['_'] + rest
        } else if slug_char_ok(s[0]) {
            seq![s[0]] + rest
        } else {
            rest
        }
    }
}

/// The slug of a title: the title trimmed, lowercased and filtered, with
/// a fixed fallback when nothing survives.
pub open spec fn spec_slug(t: Seq<char>) -> Seq<char> {
    let f = slug_filter(lower_of(trimmed_of(t)));
    if f.len() == 0 {
        seq!['p', 'r', 'o', 'm', 'p', 't']
    } else {
        f
    }
}

proof fn lemma_slug_filter_concat(a: Seq<char>, b: Seq<char>)
    ensures
        slug_filter(a + b) == slug_filter(a) + slug_filter(b),
    decreases a.len(),
{
    if a.len() == 0 {
        assert(a + b =~= b);
        assert(slug_filter(a) + slug_filter(b) =~= slug_filter(b));
    } else {
        assert((a + b).drop_first() =~= a.drop_first() + b);
        assert((a + b)[0] == a[0]);
        assert((a + b).len() > 0);
        lemma_slug_filter_concat(a.drop_first(), b);
        if a[0] == ' ' {
            assert(slug_filter(a + b) =~= seq!['_'] + slug_filter(a.drop_first()) + slug_filter(b));
            assert(slug_filter(a) + slug_filter(b) =~= seq!['_'] + slug_filter(a.drop_first())
                + slug_filter(b));
        } else if slug_char_ok(a[0]) {
            assert(slug_filter(a + b) =~= seq![a[0]] + slug_filter(a.drop_first())
                + slug_filter(b));
            assert(slug_filter(a) + slug_filter(b) =~= seq![a[0]] + slug_filter(a.drop_first())
                + slug_filter(b));
        }
    }
}

proof fn lemma_slug_filter_chars(s: Seq<char>)
    ensures
        forall|i: int| 0 <= i < slug_filter(s).len() ==> slug_char_ok(#[trigger] slug_filter(s)[i]),
    decreases s.len(),
{
    if s.len() > 0 {
        lemma_slug_filter_chars(s.drop_first());
        let rest = slug_filter(s.drop_first());
        if s[0] == ' ' {
            assert forall|i: int| 0 <= i < slug_filter(s).len() implies slug_char_ok(
                #[trigger] slug_filter(s)[i],
            ) by {
                if i == 0 {
                    assert(slug_filter(s)[0] == '_');
                } else {
                    assert(slug_filter(s)[i] == rest[i - 1]);
                }
            }
        } else if slug_char_ok(s[0]) {
            assert forall|i: int| 0 <= i < slug_filter(s).len() implies slug_char_ok(
                #[trigger] slug_filter(s)[i],
            ) by {
                if i == 0 {
                    assert(slug_filter(s)[0] == s[0]);
                } else {
                    assert(slug_filter(s)[i] == rest[i - 1]);
                }
            }
        }
    }
}

/// The slug of a title: trimmed, lowercased, spaces replaced by
/// underscores, every other character outside `[a-z0-9_-]` dropped, and
/// `"prompt"` when nothing survives. The result is never empty and holds
/// only characters from that set.
pub fn title_to_slug(title: &str) -> (r: String)
    ensures
        r@ == spec_slug(title@),
        r@.len() > 0,
        forall|i: int| 0 <= i < r@.len() ==> slug_char_ok(#[trigger] r@[i]),
{
    let trimmed = trim_str(title);
    let lowered = lowercase_str(trimmed);
    let cs = chars_vec(lowered.as_str());
    let n = cs.len();
    let mut out: Vec<char> = Vec::new();
    let mut i: usize = 0;
    while i < n
        invariant
            i <= n,
            n == cs@.len(),
            out@ == slug_filter(cs@.subrange(0, i as int)),
        decreases n - i,
    {
        let c = cs[i];
        proof {
            assert(cs@.subrange(0, i + 1) =~= cs@.subrange(0, i as int) + seq![cs@[i as int]]);
            lemma_slug_filter_concat(cs@.subrange(0, i as int), seq![cs@[i as int]]);
            assert(seq![cs@[i as int]].drop_first() =~= Seq::<char>::empty());
            assert(slug_filter(Seq::<char>::empty()) == Seq::<char>::empty());
        }
        let u = c as u32;
        if c == ' ' {
            proof {
                assert(slug_filter(seq![cs@[i as int]]) =~= seq!['_']);
            }
            out.push('_');
            assert(out@ =~= slug_filter(cs@.subrange(0, i as int)) + seq!['_']);
        } else if (97 <= u && u <= 122) || (48 <= u && u <= 57) || c == '_' || c == '-' {
            proof {
                assert(slug_filter(seq![cs@[i as int]]) =~= seq![cs@[i as int]]);
            }
            out.push(c);
            assert(out@ =~= slug_filter(cs@.subrange(0, i as int)) + seq![cs@[i as int]]);
        } else {
            proof {
                assert(!slug_char_ok(cs@[i as int]));
                assert(slug_filter(seq![cs@[i as int]]) =~= Seq::<char>::empty());
                assert(out@ =~= slug_filter(cs@.subrange(0, i as int))
                    + slug_filter(seq![cs@[i as int]]));
            }
        }
        i = i + 1;
    }
    proof {
        assert(cs@.subrange(0, n as int) =~= cs@);
        lemma_slug_filter_chars(cs@);
    }
    if out.len() == 0 {
        let fallback = String::from_str("prompt");
        proof {
            reveal_strlit("prompt");
            assert(fallback@ =~= seq!['p', 'r', 'o', 'm', 'p', 't']);
        }
        fallback
    } else {
        string_from_chars(&out)
    }
}

} // verus!
