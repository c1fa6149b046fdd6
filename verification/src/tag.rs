use vstd::prelude::*;

verus! {

/// What a string denotes when read as a Taskchampion tag.
#[derive(Clone, Copy, Debug, PartialEq, Eq, Structural)]
pub enum TagKind {
    /// Not a tag at all.
    Invalid,
    /// A tag written by a user.
    User,
    /// One of the tags that Taskchampion derives from a task's state.
    Synthetic,
}

/// A character with the Unicode `White_Space` property, the property that
/// `char::is_whitespace` tests (PropList.txt of the Unicode Character Database).
pub open spec fn is_whitespace_char(c: char) -> bool {
    ||| '\u{9}' <= c <= '\u{d}'
    ||| c == ' '
    ||| c == '\u{85}'
    ||| c == '\u{a0}'
    ||| c == '\u{1680}'
    ||| '\u{2000}' <= c <= '\u{200a}'
    ||| c == '\u{2028}'
    ||| c == '\u{2029}'
    ||| c == '\u{202f}'
    ||| c == '\u{205f}'
    ||| c == '\u{3000}'
}

/// What `taskchampion::Tag::try_from` makes of a string.  A string of ASCII
/// capitals alone (the empty string too) is a synthetic tag when it is one of
/// the eight synthetic names, and invalid otherwise.  Any other string is a
/// user tag when its first character is not whitespace, an ASCII digit or an
/// operator character, and no later character is whitespace or `:`; otherwise
/// it is invalid.
pub open spec fn spec_tag_kind(s: Seq<char>) -> TagKind {
    if forall|i: int| 0 <= i < s.len() ==> 'A' <= #[trigger] s[i] <= 'Z' {
        if is_synthetic_name(s) {
            TagKind::Synthetic
        } else {
            TagKind::Invalid
        }
    } else if !is_whitespace_char(s[0]) && !('0' <= s[0] <= '9') && !is_operator_char(s[0]) && (
    forall|i: int| 1 <= i < s.len() ==> !is_whitespace_char(#[trigger] s[i]) && s[i] != ':') {
        TagKind::User
    } else {
        TagKind::Invalid
    }
}

/// The names of Taskchampion's synthetic tags.
pub open spec fn is_synthetic_name(s: Seq<char>) -> bool {
    ||| s == "WAITING"@
    ||| s == "ACTIVE"@
    ||| s == "PENDING"@
    ||| s == "COMPLETED"@
    ||| s == "DELETED"@
    ||| s == "BLOCKED"@
    ||| s == "UNBLOCKED"@
    ||| s == "BLOCKING"@
}

/// A character that may not begin a user tag.
pub open spec fn is_operator_char(c: char) -> bool {
    ||| c == '+'
    ||| c == '-'
    ||| c == '*'
    ||| c == '/'
    ||| c == '('
    ||| c == ')'
    ||| c == '<'
    ||| c == '>'
    ||| c == '^'
    ||| c == '!'
    ||| c == '%'
    ||| c == '='
    ||| c == '~'
}

/// Reads `s` as a tag with `taskchampion::Tag::try_from` and reports whether it is
/// invalid, a user tag or a synthetic tag (`Tag::is_user` tells the two kinds
/// of tag apart).  The contract states the whole rule of the crate's
/// `Tag::from_str`: `spec_tag_kind`.
#[verifier::external_body]
fn classify_tag(s: &str) -> (kind: TagKind)
    ensures
        kind == spec_tag_kind(s@),
{
    match taskchampion::Tag::try_from(s) {
        Ok(tag) => if tag.is_user() { TagKind::User } else { TagKind::Synthetic },
        Err(_) => TagKind::Invalid,
    }
}

/// How `s` reads as a tag.
pub fn tag_kind(s: &str) -> (kind: TagKind)
    ensures
        kind == spec_tag_kind(s@),
{
    classify_tag(s)
}

} // verus!
