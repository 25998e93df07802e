//! What lines and blanks are in a text.

use vstd::prelude::*;

verus! {

/// The characters with the Unicode property `White_Space`.
pub open spec fn is_white_space(c: char) -> bool {
    ||| '\u{9}' <= c <= '\u{d}'
    ||| c == ' '
    ||| c == '\u{85}'
    ||| c == '\u{a0}'
    ||| c == '\u{1680}'
    ||| '\u{2000}' <= c <= '\u{200a}'
    ||| c == '\u{2028}'
    ||| c == '\u{2029}'
    ||| c == '\u{202f}'
    ||| c == '\u{205f}'
    ||| c == '\u{3000}'
}

/// The text without the white space at its ends.
pub open spec fn trimmed(text: Seq<char>) -> Seq<char>
    decreases text.len(),
{
    if text.len() > 0 && is_white_space(text[0]) {
        trimmed(text.drop_first())
    } else if text.len() > 0 && is_white_space(text.last()) {
        trimmed(text.drop_last())
    } else {
        text
    }
}

/// A line without the carriage return before its end.
pub open spec fn without_return(line: Seq<char>) -> Seq<char> {
    if line.len() > 0 && line.last() == '\r' {
        line.drop_last()
    } else {
        line
    }
}

/// The lines of a text. A line ends with a line feed, which may have a carriage return before
/// it; the last line need not end so.
pub open spec fn split_lines(text: Seq<char>) -> Seq<Seq<char>>
    decreases text.len(),
{
    match text.index_of_first('\n') {
        None => if text.len() == 0 {
            Seq::empty()
        } else {
            seq![text]
        },
        Some(end) => if 0 <= end < text.len() {
            seq![without_return(text.take(end))] + split_lines(text.skip(end + 1))
        } else {
            Seq::empty()
        },
    }
}

/// The texts of a list of strings.
pub open spec fn texts(list: Seq<String>) -> Seq<Seq<char>> {
    list.map_values(|text: String| text@)
}

/// `a` comes before `b`, or is `b`, in the order of strings.
pub open spec fn text_le(a: Seq<char>, b: Seq<char>) -> bool
    decreases a.len(),
{
    ||| a.len() == 0
    ||| a.len() > 0 && b.len() > 0 && a[0] < b[0]
    ||| a.len() > 0 && b.len() > 0 && a[0] == b[0] && text_le(a.drop_first(), b.drop_first())
}

/// A text without white space is a single line, with nothing to take off its ends.
pub proof fn lemma_plain_row(text: Seq<char>)
    requires
        text.len() > 0,
        forall|i: int| 0 <= i < text.len() ==> !is_white_space(#[trigger] text[i]),
    ensures
        split_lines(text) == seq![text],
        trimmed(text) == text,
{
    text.index_of_first_ensures('\n');
    if text.contains('\n') {
        let i = text.index_of('\n');
        assert(!is_white_space(text[i]));
    }
}

} // verus!
