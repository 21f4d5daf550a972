//! What the panes show of an item's facts: whether its base record was
//! known, its full name from the parts the database could name, and the
//! initials a tile falls back to without an icon.

use vstd::prelude::*;

verus! {

/// Whether the database had the base record at all.
#[derive(Clone, Copy, Debug, PartialEq, Eq, Structural)]
pub enum RecordStatus {
    Known,
    Unknown,
}

/// The named parts joined by single spaces, the missing ones left out.
pub open spec fn joined_name(prefix: Option<Seq<char>>, base: Seq<char>, suffix: Option<Seq<char>>) -> Seq<char> {
    let head = match prefix {
        Some(p) => p + " "@ + base,
        None => base,
    };
    match suffix {
        Some(s) => head + " "@ + s,
        None => head,
    }
}

/// `Prefix Base Suffix`, parts the database cannot name omitted.
pub fn display_name(prefix: Option<&str>, base: &str, suffix: Option<&str>) -> (name: String)
    ensures
        name@ == joined_name(
            match prefix {
                Some(p) => Some(p@),
                None => None,
            },
            base@,
            match suffix {
                Some(s) => Some(s@),
                None => None,
            },
        ),
{
    let head = match prefix {
        Some(p) => crate::text::join2(p, " ").concat(base),
        None => String::from_str(base),
    };
    match suffix {
        Some(s) => head.concat(" ").concat(s),
        None => head,
    }
}

/// Whether a character has Unicode's White_Space property, as
/// `char::is_whitespace` tests it: the 25 code points U+0009–U+000D,
/// U+0020, U+0085, U+00A0, U+1680, U+2000–U+200A, U+2028, U+2029,
/// U+202F, U+205F and U+3000.
pub open spec fn whitespace(c: char) -> bool {
    let v = c as u32;
    ||| 0x9 <= v <= 0xD
    ||| v == 0x20
    ||| v == 0x85
    ||| v == 0xA0
    ||| v == 0x1680
    ||| 0x2000 <= v <= 0x200A
    ||| v == 0x2028
    ||| v == 0x2029
    ||| v == 0x202F
    ||| v == 0x205F
    ||| v == 0x3000
}

/// Whether `char::is_alphanumeric` holds of a character (Unicode's
/// Alphabetic or Numeric).
pub uninterp spec fn alphanumeric(c: char) -> bool;

/// What `str::to_uppercase` makes of a text.
pub uninterp spec fn uppercased(text: Seq<char>) -> Seq<char>;

/// Whether a character is white space (see [`whitespace`]).
fn is_space(c: char) -> (space: bool)
    ensures
        space == whitespace(c),
{
    let v = c as u32;
    (0x9 <= v && v <= 0xD) || v == 0x20 || v == 0x85 || v == 0xA0 || v == 0x1680 || (0x2000 <= v && v
        <= 0x200A) || v == 0x2028 || v == 0x2029 || v == 0x202F || v == 0x205F || v == 0x3000
}

/// Calls `char::is_alphanumeric`; claims only that the answer is a
/// function of the character (named [`alphanumeric`]).
#[verifier::external_body]
fn is_word_char(c: char) -> (word: bool)
    ensures
        word == alphanumeric(c),
{
    c.is_alphanumeric()
}

/// Calls `str::to_uppercase`; claims only that the result is a
/// function of the text (named [`uppercased`]).
#[verifier::external_body]
fn uppercase(text: &str) -> (upper: String)
    ensures
        upper@ == uppercased(text@),
{
    text.to_uppercase()
}

/// The first character of every word of `name[..k]` — a word being a
/// run of characters without white space — in order.
pub open spec fn word_starts(name: Seq<char>, k: int) -> Seq<char>
    decreases k,
{
    if k <= 0 {
        Seq::empty()
    } else {
        let before = word_starts(name, k - 1);
        if !whitespace(name[k - 1]) && (k == 1 || whitespace(name[k - 2])) {
            before.push(name[k - 1])
        } else {
            before
        }
    }
}

/// The letters and digits among `chars`, in order.
pub open spec fn word_chars(chars: Seq<char>) -> Seq<char>
    decreases chars.len(),
{
    if chars.len() == 0 {
        Seq::empty()
    } else {
        let before = word_chars(chars.drop_last());
        if alphanumeric(chars.last()) {
            before.push(chars.last())
        } else {
            before
        }
    }
}

/// At most the first two of `chars`.
pub open spec fn first_two(chars: Seq<char>) -> Seq<char> {
    if chars.len() <= 2 {
        chars
    } else {
        chars.take(2)
    }
}

/// Up to two initials of a name: the first character of each word,
/// those that are letters or digits, the first two, in uppercase.
pub open spec fn initials_of(name: Seq<char>) -> Seq<char> {
    uppercased(first_two(word_chars(word_starts(name, name.len() as int))))
}

/// Up to two initials of the base name, for the fallback tile.
pub fn initials(name: &str) -> (text: String)
    ensures
        text@ == initials_of(name@),
{
    let n = name.unicode_len();
    let mut picked = String::new();
    let mut count: usize = 0;
    let mut i: usize = 0;
    let mut after_space = true;
    while i < n
        invariant
            n == name@.len(),
            i <= n,
            count == picked@.len(),
            count <= 2,
            after_space == (i == 0 || whitespace(name@[i - 1])),
            count < 2 ==> picked@ == word_chars(word_starts(name@, i as int)),
            count == 2 ==> picked@ == first_two(word_chars(word_starts(name@, i as int))),
        decreases n - i,
    {
        let c = name.get_char(i);
        let space = is_space(c);
        let ghost before = word_starts(name@, i as int);
        proof {
            assert(name@[i as int] == c);
        }
        if !space && after_space {
            proof {
                assert(word_starts(name@, i as int + 1) == before.push(c));
                assert(before.push(c).drop_last() == before);
                assert(word_chars(before.push(c)) == if alphanumeric(c) {
                    word_chars(before).push(c)
                } else {
                    word_chars(before)
                });
                assert(word_chars(before).push(c).drop_last() == word_chars(before));
                lemma_first_two_grows(word_chars(before), word_chars(before.push(c)));
            }
            if count < 2 && is_word_char(c) {
                picked.append(name.substring_char(i, i + 1));
                count = count + 1;
            }
        } else {
            proof {
                assert(word_starts(name@, i as int + 1) == before);
            }
        }
        after_space = space;
        i = i + 1;
    }
    proof {
        let all = word_chars(word_starts(name@, n as int));
        if count < 2 {
            assert(first_two(all) == all);
        }
    }
    uppercase(picked.as_str())
}

/// Extending the sequence by one keeps its first two once it had two.
proof fn lemma_first_two_grows(short: Seq<char>, long: Seq<char>)
    requires
        long == short || (long.len() == short.len() + 1 && long.drop_last() == short),
    ensures
        short.len() >= 2 ==> first_two(long) == first_two(short),
{
    if short.len() >= 2 && long != short {
        assert(long.take(2) =~= short.take(2));
    }
}

} // verus!
