//! Small formatting routines that the reports share.

use vstd::prelude::*;
use vstd::utf8::{decode_utf8, encode_utf8, encode_utf8_decode_utf8, is_char_boundary};
use crate::model::display_path;
use crate::text::{
    after_last, from_chars, from_chars_range, join, lines, lines_exec, push_repeat, repeat,
    rfind_exec, starts_with_exec, to_chars, utf8_len, views,
};

verus! {

/// A line moved right by `spaces` spaces; an empty line stays empty.
pub open spec fn indent_line(line: Seq<char>, spaces: nat) -> Seq<char> {
    if line.len() == 0 {
        line
    } else {
        repeat(" "@, spaces) + line
    }
}

/// The lines of `text`, each moved right by `spaces` spaces, with a line feed
/// between each two.
pub open spec fn indent_spec(text: Seq<char>, spaces: nat) -> Seq<char> {
    join(lines(text).map_values(|l: Seq<char>| indent_line(l, spaces)), "\n"@)
}

/// Indents every line of `text` by the given number of spaces.
pub fn indent(text: &str, spaces: usize) -> (r: String)
    ensures
        r@ == indent_spec(text@, spaces as nat),
{
    let t = to_chars(text);
    let all = lines_exec(&t);
    let ghost moved = lines(text@).map_values(|l: Seq<char>| indent_line(l, spaces as nat));
    let mut r = String::new();
    let mut i: usize = 0;
    while i < all.len()
        invariant
            i <= all.len(),
            views(all@) == lines(text@),
            moved == lines(text@).map_values(|l: Seq<char>| indent_line(l, spaces as nat)),
            r@ == join(moved.take(i as int), "\n"@),
        decreases all.len() - i,
    {
        assert(moved.take(i + 1).drop_last() =~= moved.take(i as int));
        assert(views(all@)[i as int] == all@[i as int]@);
        if i > 0 {
            r.append("\n");
        }
        let ghost before = r@;
        if all[i].len() > 0 {
            push_repeat(&mut r, " ", spaces);
            r.append(from_chars(&all[i]).as_str());
            assert(r@ =~= before + indent_line(all@[i as int]@, spaces as nat));
        }
        i += 1;
    }
    assert(moved.take(all.len() as int) =~= moved);
    r
}

/// One entry of a module tree behind the indentation `prefix`: a dash, the
/// last segment of the path and, where there is a description, a long dash
/// and the description.
pub open spec fn entry_line(prefix: Seq<char>, path: Seq<char>, description: Seq<char>) -> Seq<
    char,
> {
    prefix + "- "@ + after_last(path, "::"@) + if description.len() == 0 {
        Seq::empty()
    } else {
        " — "@ + description
    }
}

/// One entry of a module tree at the depth `depth`: two spaces a level.
pub open spec fn tree_entry_spec(path: Seq<char>, description: Seq<char>, depth: nat) -> Seq<
    char,
> {
    entry_line(repeat("  "@, depth), path, description)
}

/// Appends one entry of a module tree behind the indentation `prefix`.
pub fn push_entry(out: &mut String, prefix: &str, path: &str, description: &str)
    ensures
        final(out)@ == old(out)@ + entry_line(prefix@, path@, description@),
{
    out.append(prefix);
    out.append("- ");
    let p = to_chars(path);
    let sep = to_chars("::");
    match rfind_exec(&p, &sep) {
        Some(i) => {
            out.append(from_chars_range(&p, i + sep.len(), p.len()).as_str());
        },
        None => {
            out.append(path);
        },
    }
    if description.unicode_len() > 0 {
        out.append(" — ");
        out.append(description);
    }
    assert(out@ =~= old(out)@ + entry_line(prefix@, path@, description@));
}

/// Formats a module path as a tree entry with indentation.
pub fn tree_entry(path: &str, description: &str, depth: usize) -> (r: String)
    ensures
        r@ == tree_entry_spec(path@, description@, depth as nat),
{
    let mut prefix = String::new();
    push_repeat(&mut prefix, "  ", depth);
    assert(prefix@ =~= repeat("  "@, depth as nat));
    let mut r = String::new();
    push_entry(&mut r, prefix.as_str(), path, description);
    assert(r@ =~= entry_line(prefix@, path@, description@));
    r
}

/// Strips the leading `crate::` from a module path for display.
pub fn display_module_path(path: &str) -> (r: &str)
    ensures
        r@ == display_path(path@),
{
    let p = to_chars(path);
    let root = to_chars("crate::");
    if starts_with_exec(&p, &root) {
        let r = path.substring_char(root.len(), p.len());
        assert(r@ =~= path@.skip(root.len() as int));
        r
    } else {
        path
    }
}

/// The number of bytes kept of a text that is cut to `max_len` bytes: three
/// less, for the dots that follow.
pub open spec fn kept_bytes(max_len: nat) -> nat {
    if max_len >= 3 {
        (max_len - 3) as nat
    } else {
        0
    }
}

/// Whether `s` can be cut to `max_len` bytes: it is short enough to stay
/// whole, or the cut falls between two characters.
pub open spec fn can_truncate(s: Seq<char>, max_len: nat) -> bool {
    utf8_len(s) > max_len ==> is_char_boundary(encode_utf8(s), kept_bytes(max_len) as int)
}

/// `s` itself where it takes at most `max_len` bytes; else the characters in
/// its first bytes, three less than `max_len`, and three dots.
pub open spec fn truncate_spec(s: Seq<char>, max_len: nat) -> Seq<char> {
    if utf8_len(s) <= max_len {
        s
    } else {
        decode_utf8(encode_utf8(s).subrange(0, kept_bytes(max_len) as int)) + "..."@
    }
}

/// Truncates a string to a maximum length in bytes, adding `...` if
/// truncated.
pub fn truncate(s: &str, max_len: usize) -> (r: String)
    requires
        can_truncate(s@, max_len as nat),
    ensures
        r@ == truncate_spec(s@, max_len as nat),
{
    if s.as_bytes().len() <= max_len {
        s.to_string()
    } else {
        let keep = if max_len >= 3 {
            max_len - 3
        } else {
            0
        };
        let (head, _) = s.split_at(keep);
        proof {
            encode_utf8_decode_utf8(head@);
        }
        let mut r = head.to_string();
        r.append("...");
        r
    }
}

/// A block of code in a report: fenced, with the language after the opening
/// fence.
pub open spec fn code_block_spec(code: Seq<char>, language: Seq<char>) -> Seq<char> {
    "```"@ + language + "\n"@ + code + "\n```"@
}

/// Formats a code block in markdown.
pub fn code_block(code: &str, language: &str) -> (r: String)
    ensures
        r@ == code_block_spec(code@, language@),
{
    let mut r = "```".to_string();
    r.append(language);
    r.append("\n");
    r.append(code);
    r.append("\n```");
    r
}

} // verus!
