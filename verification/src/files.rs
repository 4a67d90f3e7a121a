//! Names under which literature files are archived.
use vstd::prelude::*;
use crate::text::{alphanumeric, prefix, dec_int, is_alnum, push_char, push_i64, push_str, chars_of};

verus! {

/// A character that may stay in an archived file name.
pub open spec fn keep_char(c: char) -> bool {
    alphanumeric(c) || c == '-' || c == '_'
}

/// Picks out the characters that may stay in a file name.
pub open spec fn kept() -> spec_fn(char) -> bool {
    |c: char| keep_char(c)
}

/// A title made safe for a file name: its alphanumeric characters, hyphens
/// and underscores, in order, at most 50 of them.
pub open spec fn sanitized(title: Seq<char>) -> Seq<char> {
    prefix(title.filter(kept()), 50)
}

/// The title made safe for a file name.
pub fn sanitize_title(title: &str) -> (s: String)
    ensures
        s@ == sanitized(title@),
{
    let cs = chars_of(title);
    let mut out = String::new();
    let mut count: usize = 0;
    let mut i: usize = 0;
    while i < cs.len()
        invariant
            cs@ == title@,
            i <= cs@.len(),
            out@ == prefix(cs@.take(i as int).filter(kept()), 50),
            count == out@.len(),
            count <= 50,
        decreases cs@.len() - i,
    {
        let c = cs[i];
        let keep = is_alnum(c) || c == '-' || c == '_';
        proof {
            assert(cs@.take(i + 1) =~= cs@.take(i as int).push(c));
            cs@.take(i as int).lemma_filter_push(c, kept());
            let f = cs@.take(i as int).filter(kept());
            if keep && count < 50 {
                assert(f.len() < 50 || f.len() == 50);
                assert(prefix(f, 50) == f);
                assert(prefix(f.push(c), 50) =~= f.push(c));
            } else if keep {
                assert(prefix(f.push(c), 50) =~= prefix(f, 50));
            }
        }
        if keep && count < 50 {
            push_char(&mut out, c);
            count = count + 1;
        }
        i = i + 1;
    }
    proof {
        assert(cs@.take(i as int) =~= title@);
    }
    out
}

/// The file name under which literature entry `lit_id` is archived: its
/// id, an underscore, its sanitized title and ".pdf".
pub fn archive_name(lit_id: i64, title: &str) -> (s: String)
    ensures
        s@ == dec_int(lit_id as int) + "_"@ + sanitized(title@) + ".pdf"@,
{
    let mut s = String::new();
    push_i64(&mut s, lit_id);
    push_str(&mut s, "_");
    let t = sanitize_title(title);
    push_str(&mut s, t.as_str());
    push_str(&mut s, ".pdf");
    proof {
        assert(s@ =~= dec_int(lit_id as int) + "_"@ + sanitized(title@) + ".pdf"@);
    }
    s
}


/// Sanitizing a title twice changes nothing more than sanitizing it once.
pub proof fn law_sanitize_is_idempotent(title: Seq<char>)
    ensures
        sanitized(sanitized(title)) == sanitized(title),
{
    let f = title.filter(kept());
    title.filter_lemma(kept());
    let s = prefix(f, 50);
    assert forall|i: int| 0 <= i < s.len() implies #[trigger] kept()(s[i]) by {
        assert(s[i] == f[i]);
    }
    lemma_filter_keeps_all(s);
    assert(s.len() <= 50);
    assert(prefix(s, 50) == s);
}

proof fn lemma_filter_keeps_all(s: Seq<char>)
    requires
        forall|i: int| 0 <= i < s.len() ==> #[trigger] kept()(s[i]),
    ensures
        s.filter(kept()) == s,
    decreases s.len(),
{
    if s.len() > 0 {
        let t = s.drop_last();
        assert forall|i: int| 0 <= i < t.len() implies #[trigger] kept()(t[i]) by {
            assert(t[i] == s[i]);
        }
        lemma_filter_keeps_all(t);
        assert(t.push(s.last()) =~= s);
        t.lemma_filter_push(s.last(), kept());
        assert(kept()(s[s.len() - 1]));
    } else {
        assert(s.filter(kept()) =~= s);
    }
}

} // verus!
