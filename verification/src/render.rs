//! The report serializer: renders the classified report as a sectioned
//! key-value text document, one section per entry, with the three name
//! lists as explicit arrays in the fixed order enabled, unused, dangling.
//!
//! The document is a pure function of the report, so two runs over the same
//! data produce byte-identical output.

use vstd::prelude::*;

verus! {

use crate::model::FeatureSetV;
use crate::model::ReportEntry;
use crate::model::ReportEntryV;
use vstd::string::StrSliceExecFns;
use vstd::string::StringExecFns;

/// Relies on String::push: appends exactly the given character.
pub assume_specification[ String::push ](s: &mut String, c: char)
    ensures
        final(s)@ == old(s)@.push(c),
;

/// How one character is written inside a quoted string: quotes, backslashes
/// and the common control characters are escaped, anything else stands as
/// itself.
pub open spec fn escape_char(c: char) -> Seq<char> {
    if c == '"' {
        seq!['\\', '"']
    } else if c == '\\' {
        seq!['\\', '\\']
    } else if c == '\n' {
        seq!['\\', 'n']
    } else if c == '\t' {
        seq!['\\', 't']
    } else if c == '\r' {
        seq!['\\', 'r']
    } else {
        seq![c]
    }
}

/// A text with every character escaped.
pub open spec fn escape_seq(s: Seq<char>) -> Seq<char>
    decreases s.len(),
{
    if s.len() == 0 {
        Seq::empty()
    } else {
        escape_seq(s.drop_last()) + escape_char(s.last())
    }
}

/// A name quoted for the document.
pub open spec fn quoted(s: Seq<char>) -> Seq<char> {
    "\""@ + escape_seq(s) + "\""@
}

/// A character a key may hold without quoting.
pub open spec fn is_bare_char(c: char) -> bool {
    ||| ('a' as int) <= (c as int) <= ('z' as int)
    ||| ('A' as int) <= (c as int) <= ('Z' as int)
    ||| ('0' as int) <= (c as int) <= ('9' as int)
    ||| c == '-'
    ||| c == '_'
}

/// A key that may stand unquoted in a section header.
pub open spec fn all_bare(s: Seq<char>) -> bool {
    s.len() > 0 && forall|i: int| 0 <= i < s.len() ==> is_bare_char(s[i])
}

/// A section key: bare when possible, quoted otherwise.
pub open spec fn render_key(k: Seq<char>) -> Seq<char> {
    if all_bare(k) {
        k
    } else {
        quoted(k)
    }
}

/// One array line: four spaces, the quoted name, a comma and a newline.
pub open spec fn item_line(name: Seq<char>) -> Seq<char> {
    "    "@ + quoted(name) + ",\n"@
}

/// The lines of an array, one name per line.
pub open spec fn render_items(names: Seq<Seq<char>>) -> Seq<char>
    decreases names.len(),
{
    if names.len() == 0 {
        Seq::empty()
    } else {
        render_items(names.drop_last()) + item_line(names.last())
    }
}

/// An array value: `[]` when empty, one indented line per name otherwise.
pub open spec fn render_array(names: Seq<Seq<char>>) -> Seq<char> {
    if names.len() == 0 {
        "[]"@
    } else {
        "[\n"@ + render_items(names) + "]"@
    }
}

/// One field line: `label = <array>`.
pub open spec fn render_field(label: Seq<char>, names: Seq<Seq<char>>) -> Seq<char> {
    label + " = "@ + render_array(names) + "\n"@
}

/// One report section: the bracketed key, then the three arrays in fixed
/// order.
pub open spec fn render_entry(e: ReportEntryV) -> Seq<char> {
    "["@ + render_key(e.key) + "]\n"@ + render_field("enabled"@, e.features.enabled)
        + render_field("unused"@, e.features.unused) + render_field(
        "dangling"@,
        e.features.dangling,
    )
}

/// The whole document: the sections in report order, separated by blank
/// lines.
pub open spec fn render_report(entries: Seq<ReportEntryV>) -> Seq<char>
    decreases entries.len(),
{
    if entries.len() == 0 {
        Seq::empty()
    } else if entries.len() == 1 {
        render_entry(entries[0])
    } else {
        render_report(entries.drop_last()) + "\n"@ + render_entry(entries.last())
    }
}

/// Appends the escaped form of `s`.
#[verifier::loop_isolation(false)]
fn push_escaped(out: &mut String, s: &str)
    ensures
        final(out)@ == old(out)@ + escape_seq(s@),
{
    let ghost start = out@;
    let n = s.unicode_len();
    let mut i: usize = 0;
    proof {
        assert(escape_seq(s@.take(0)) =~= Seq::<char>::empty());
        assert(out@ =~= start + escape_seq(s@.take(0)));
        reveal_strlit("\\\"");
        reveal_strlit("\\\\");
        reveal_strlit("\\n");
        reveal_strlit("\\t");
        reveal_strlit("\\r");
        assert("\\\""@ =~= seq!['\\', '"']);
        assert("\\\\"@ =~= seq!['\\', '\\']);
        assert("\\n"@ =~= seq!['\\', 'n']);
        assert("\\t"@ =~= seq!['\\', 't']);
        assert("\\r"@ =~= seq!['\\', 'r']);
    }
    while i < n
        invariant
            i <= n,
            n == s@.len(),
            out@ == start + escape_seq(s@.take(i as int)),
        decreases n - i,
    {
        let c = s.get_char(i);
        if c == '"' {
            out.append("\\\"");
        } else if c == '\\' {
            out.append("\\\\");
        } else if c == '\n' {
            out.append("\\n");
        } else if c == '\t' {
            out.append("\\t");
        } else if c == '\r' {
            out.append("\\r");
        } else {
            out.push(c);
            proof {
                assert(escape_char(c) =~= seq![c]);
            }
        }
        proof {
            assert(s@.take(i as int + 1).drop_last() =~= s@.take(i as int));
            assert(s@.take(i as int + 1).last() == s@[i as int]);
            assert(out@ =~= start + (escape_seq(s@.take(i as int)) + escape_char(s@[i as int])));
        }
        i = i + 1;
    }
    proof {
        assert(s@.take(n as int) =~= s@);
    }
}

/// Appends the quoted form of a name.
fn push_quoted(out: &mut String, s: &str)
    ensures
        final(out)@ == old(out)@ + quoted(s@),
{
    out.append("\"");
    push_escaped(out, s);
    out.append("\"");
    proof {
        assert(old(out)@ + quoted(s@) =~= ((old(out)@ + "\""@) + escape_seq(s@)) + "\""@);
    }
}

/// Whether the key may stand bare.
#[verifier::loop_isolation(false)]
fn is_bare_key(s: &str) -> (r: bool)
    ensures
        r == all_bare(s@),
{
    let n = s.unicode_len();
    if n == 0 {
        return false;
    }
    let mut i: usize = 0;
    while i < n
        invariant
            i <= n,
            n == s@.len(),
            forall|j: int| 0 <= j < i ==> is_bare_char(s@[j]),
        decreases n - i,
    {
        let c = s.get_char(i);
        let bare = (c >= 'a' && c <= 'z') || (c >= 'A' && c <= 'Z') || (c >= '0' && c <= '9') || c
            == '-' || c == '_';
        if !bare {
            return false;
        }
        i = i + 1;
    }
    true
}

/// Appends one field line.
fn push_field(out: &mut String, label: &str, names: &Vec<String>)
    ensures
        final(out)@ == old(out)@ + render_field(label@, names.deep_view()),
{
    let ghost start = out@;
    out.append(label);
    out.append(" = ");
    if names.len() == 0 {
        out.append("[]");
        out.append("\n");
        proof {
            assert(names.deep_view().len() == 0);
            assert(out@ =~= start + render_field(label@, names.deep_view()));
        }
        return ;
    }
    out.append("[\n");
    let ghost mid = out@;
    let ghost nv = names.deep_view();
    let mut i: usize = 0;
    proof {
        assert(render_items(nv.take(0)) =~= Seq::<char>::empty());
        assert(out@ =~= mid + render_items(nv.take(0)));
    }
    while i < names.len()
        invariant
            i <= names@.len(),
            nv == names.deep_view(),
            nv.len() == names@.len(),
            out@ == mid + render_items(nv.take(i as int)),
        decreases names@.len() - i,
    {
        out.append("    ");
        push_quoted(out, names[i].as_str());
        out.append(",\n");
        proof {
            assert(nv.take(i as int + 1).drop_last() =~= nv.take(i as int));
            assert(nv.take(i as int + 1).last() == nv[i as int]);
            assert(nv[i as int] == names@[i as int]@);
            assert(out@ =~= mid + (render_items(nv.take(i as int)) + item_line(nv[i as int])));
        }
        i = i + 1;
    }
    out.append("]");
    out.append("\n");
    proof {
        assert(nv.take(nv.len() as int) =~= nv);
        assert(out@ =~= start + render_field(label@, nv));
    }
}

/// Appends one report section.
fn push_entry(out: &mut String, e: &ReportEntry)
    ensures
        final(out)@ == old(out)@ + render_entry(e@),
{
    let ghost start = out@;
    out.append("[");
    if is_bare_key(e.key.as_str()) {
        out.append(e.key.as_str());
    } else {
        push_quoted(out, e.key.as_str());
    }
    out.append("]\n");
    push_field(out, "enabled", &e.features.enabled);
    push_field(out, "unused", &e.features.unused);
    push_field(out, "dangling", &e.features.dangling);
    proof {
        assert(out@ =~= start + render_entry(e@));
    }
}

/// Renders the classified report as one text document; a pure function of
/// the report, rendered deterministically.
#[verifier::loop_isolation(false)]
pub fn serialize_report(entries: &Vec<ReportEntry>) -> (r: String)
    ensures
        r@ == render_report(entries.deep_view()),
{
    let ghost ev = entries.deep_view();
    let mut out = String::new();
    let mut i: usize = 0;
    proof {
        assert(render_report(ev.take(0)) =~= Seq::<char>::empty());
        assert(out@ =~= render_report(ev.take(0)));
    }
    while i < entries.len()
        invariant
            i <= entries@.len(),
            ev == entries.deep_view(),
            ev.len() == entries@.len(),
            out@ == render_report(ev.take(i as int)),
        decreases entries@.len() - i,
    {
        if i > 0 {
            out.append("\n");
        }
        push_entry(&mut out, &entries[i]);
        proof {
            assert(ev.take(i as int + 1).drop_last() =~= ev.take(i as int));
            assert(ev.take(i as int + 1).last() == ev[i as int]);
            if i == 0 {
                assert(ev.take(1).len() == 1);
                assert(out@ =~= render_report(ev.take(1)));
            } else {
                assert(out@ =~= render_report(ev.take(i as int)) + "\n"@ + render_entry(
                    ev[i as int],
                ));
            }
        }
        i = i + 1;
    }
    proof {
        assert(ev.take(ev.len() as int) =~= ev);
    }
    out
}

} // verus!
