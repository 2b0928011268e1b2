//! Character-level helpers: XML whitespace and text escaping.

use vstd::prelude::*;
use vstd::string::StrSliceExecFns;
use vstd::string::StringExecFns;

verus! {

/// The four characters XML treats as whitespace.
pub open spec fn is_xml_space(c: char) -> bool {
    c == ' ' || c == '\t' || c == '\r' || c == '\n'
}

/// A text run is significant when it holds at least one non-whitespace
/// character.  Whitespace-only runs are discarded by parsing and
/// canonicalization.
pub open spec fn significant(t: Seq<char>) -> bool {
    exists|i: int| 0 <= i < t.len() && !is_xml_space(t[i])
}

/// The escaped form of a single character in emitted text: the five
/// XML-special characters become entity references, every other character
/// stands as itself.
pub open spec fn escape_char(c: char) -> Seq<char> {
    if c == '&' {
        "&amp;"@
    } else if c == '<' {
        "&lt;"@
    } else if c == '>' {
        "&gt;"@
    } else if c == '\'' {
        "&apos;"@
    } else if c == '"' {
        "&quot;"@
    } else {
        seq![c]
    }
}

/// The escaped form of a text run: each character replaced by its escaped
/// form, in order.
pub open spec fn escaped(t: Seq<char>) -> Seq<char>
    decreases t.len(),
{
    if t.len() == 0 {
        Seq::empty()
    } else {
        escape_char(t[0]) + escaped(t.drop_first())
    }
}

pub proof fn lemma_escaped_push(t: Seq<char>, c: char)
    ensures
        escaped(t.push(c)) == escaped(t) + escape_char(c),
    decreases t.len(),
{
    if t.len() == 0 {
        assert(t.push(c)[0] == c);
        assert(t.push(c).drop_first() =~= Seq::<char>::empty());
        assert(escaped(t.push(c)) == escape_char(c) + escaped(Seq::<char>::empty()));
        assert(escaped(Seq::<char>::empty()) == Seq::<char>::empty());
        assert(escape_char(c) + Seq::<char>::empty() =~= escape_char(c));
        assert(t =~= Seq::<char>::empty());
        assert(escaped(t) + escape_char(c) =~= escape_char(c));
    } else {
        assert(t.push(c)[0] == t[0]);
        assert(t.push(c).drop_first() =~= t.drop_first().push(c));
        lemma_escaped_push(t.drop_first(), c);
        assert(escaped(t.push(c)) == escape_char(t[0]) + (escaped(t.drop_first()) + escape_char(
            c,
        )));
        assert(escape_char(t[0]) + (escaped(t.drop_first()) + escape_char(c)) =~= (escape_char(t[0])
            + escaped(t.drop_first())) + escape_char(c));
    }
}

/// Whether a string holds no non-whitespace character.
pub fn is_blank(s: &str) -> (r: bool)
    ensures
        r == !significant(s@),
{
    let n = s.unicode_len();
    let mut i: usize = 0;
    while i < n
        invariant
            n == s@.len(),
            0 <= i <= n,
            forall|j: int| 0 <= j < i ==> is_xml_space(s@[j]),
        decreases n - i,
    {
        let c = s.get_char(i);
        if !(c == ' ' || c == '\t' || c == '\r' || c == '\n') {
            proof {
                assert(!is_xml_space(s@[i as int]));
            }
            return false;
        }
        i += 1;
    }
    true
}

/// Relies on `String::push` from std: appends exactly one character.
#[verifier::external_body]
fn push_char(s: &mut String, c: char)
    ensures
        final(s)@ == old(s)@.push(c),
{
    s.push(c);
}

/// The escaped form of a string, with the five XML-special characters
/// turned into entity references.
pub fn escape_text(s: &str) -> (r: String)
    ensures
        r@ == escaped(s@),
{
    let n = s.unicode_len();
    let mut out = String::new();
    let mut i: usize = 0;
    while i < n
        invariant
            n == s@.len(),
            0 <= i <= n,
            out@ == escaped(s@.take(i as int)),
        decreases n - i,
    {
        let c = s.get_char(i);
        if c == '&' {
            out.append("&amp;");
        } else if c == '<' {
            out.append("&lt;");
        } else if c == '>' {
            out.append("&gt;");
        } else if c == '\'' {
            out.append("&apos;");
        } else if c == '"' {
            out.append("&quot;");
        } else {
            push_char(&mut out, c);
        }
        proof {
            lemma_escaped_push(s@.take(i as int), s@[i as int]);
            assert(s@.take(i as int).push(s@[i as int]) =~= s@.take(i as int + 1));
            assert(escaped(s@.take(i as int)).push(s@[i as int]) =~= escaped(s@.take(i as int))
                + seq![s@[i as int]]);
        }
        i += 1;
    }
    proof {
        assert(s@.take(n as int) =~= s@);
    }
    out
}

} // verus!
