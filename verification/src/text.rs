//! Text for log lines: numbers in decimal, the search for a piece of text in
//! another, and the exchange of one value of a line for a new one.

use vstd::prelude::*;

verus! {

/// The character of a decimal digit.
pub open spec fn digit_char(d: nat) -> char {
    if d == 0 {
        '0'
    } else if d == 1 {
        '1'
    } else if d == 2 {
        '2'
    } else if d == 3 {
        '3'
    } else if d == 4 {
        '4'
    } else if d == 5 {
        '5'
    } else if d == 6 {
        '6'
    } else if d == 7 {
        '7'
    } else if d == 8 {
        '8'
    } else {
        '9'
    }
}

/// A number written in decimal, without leading zeros.
pub open spec fn decimal(n: nat) -> Seq<char>
    decreases n,
{
    if n < 10 {
        seq![digit_char(n)]
    } else {
        decimal(n / 10).push(digit_char(n % 10))
    }
}

/// Whether `needle` stands in `hay` at position `at`.
pub open spec fn occurs_at(hay: Seq<char>, needle: Seq<char>, at: int) -> bool {
    0 <= at && at + needle.len() <= hay.len() && hay.subrange(at, at + needle.len()) == needle
}

/// The first position from `from` on at which `needle` stands in `hay`.
pub open spec fn first_occurrence(hay: Seq<char>, needle: Seq<char>, from: int) -> Option<int>
    decreases hay.len() + 1 - from,
{
    if from < 0 || from + needle.len() > hay.len() {
        None
    } else if occurs_at(hay, needle, from) {
        Some(from)
    } else {
        first_occurrence(hay, needle, from + 1)
    }
}

/// The text that opens the value of the field `key` in a line: the key in
/// quotes, a colon and the quote before the value.
pub open spec fn field_opening(key: Seq<char>) -> Seq<char> {
    seq!['"'] + key + seq!['"', ':', '"']
}

/// The line `json` with the value of its first field `key` exchanged for
/// `new_value`, where the line has such a field and the value is closed by a
/// quote.
pub open spec fn with_field(json: Seq<char>, key: Seq<char>, new_value: Seq<char>) -> Option<
    Seq<char>,
> {
    match first_occurrence(json, field_opening(key), 0) {
        None => None,
        Some(at) => {
            let begin = at + field_opening(key).len();
            match first_occurrence(json, seq!['"'], begin) {
                None => None,
                Some(end) => Some(
                    json.subrange(0, begin) + new_value + json.subrange(end, json.len() as int),
                ),
            }
        },
    }
}

/// What `first_occurrence` finds is a place where the needle stands, and the
/// needle stands nowhere between `from` and that place; where it finds
/// nothing, the needle stands nowhere from `from` on.
pub proof fn lemma_first_occurrence(hay: Seq<char>, needle: Seq<char>, from: int)
    requires
        0 <= from,
    ensures
        first_occurrence(hay, needle, from) matches Some(found) ==> from <= found && occurs_at(
            hay,
            needle,
            found,
        ) && forall|at: int| from <= at < found ==> !#[trigger] occurs_at(hay, needle, at),
        first_occurrence(hay, needle, from) is None ==> forall|at: int|
            from <= at ==> !#[trigger] occurs_at(hay, needle, at),
    decreases hay.len() + 1 - from,
{
    if from + needle.len() <= hay.len() && !occurs_at(hay, needle, from) {
        lemma_first_occurrence(hay, needle, from + 1);
    }
}

fn digit_text(d: u8) -> (text: &'static str)
    requires
        d < 10,
    ensures
        text@ == seq![digit_char(d as nat)],
{
    proof {
        reveal_strlit("0");
        reveal_strlit("1");
        reveal_strlit("2");
        reveal_strlit("3");
        reveal_strlit("4");
        reveal_strlit("5");
        reveal_strlit("6");
        reveal_strlit("7");
        reveal_strlit("8");
        reveal_strlit("9");
    }
    let text = match d {
        0 => "0",
        1 => "1",
        2 => "2",
        3 => "3",
        4 => "4",
        5 => "5",
        6 => "6",
        7 => "7",
        8 => "8",
        _ => "9",
    };
    assert(text@ =~= seq![digit_char(d as nat)]);
    text
}

/// Appends `n` in decimal.
pub fn append_decimal(out: &mut String, n: u128)
    ensures
        final(out)@ == old(out)@ + decimal(n as nat),
    decreases n,
{
    if n >= 10 {
        append_decimal(out, n / 10);
    }
    out.append(digit_text((n % 10) as u8));
    assert(out@ =~= old(out)@ + decimal(n as nat));
}

/// Whether `needle`, of `len` characters, stands in `hay` at position `at`.
fn stands_at(hay: &str, needle: &str, at: usize, len: usize, total: usize) -> (stands: bool)
    requires
        len == needle@.len(),
        total == hay@.len(),
        at + len <= total,
    ensures
        stands == occurs_at(hay@, needle@, at as int),
{
    let mut k: usize = 0;
    while k < len
        invariant
            k <= len,
            len == needle@.len(),
            total == hay@.len(),
            at + len <= total,
            forall|j: int| 0 <= j < k ==> hay@[at + j] == needle@[j],
        decreases len - k,
    {
        if hay.get_char(at + k) != needle.get_char(k) {
            assert(hay@.subrange(at as int, at + len)[k as int] != needle@[k as int]);
            return false;
        }
        k = k + 1;
    }
    assert(hay@.subrange(at as int, at + len) =~= needle@);
    true
}

/// The first position from `from` on at which `needle` stands in `hay`.
pub fn find(hay: &str, needle: &str, from: usize) -> (found: Option<usize>)
    ensures
        match found {
            Some(at) => first_occurrence(hay@, needle@, from as int) == Some(at as int),
            None => first_occurrence(hay@, needle@, from as int) is None,
        },
{
    let total = hay.unicode_len();
    let len = needle.unicode_len();
    if len > total || from > total - len {
        return None;
    }
    let last: usize = total - len;
    let mut at: usize = from;
    loop
        invariant
            total == hay@.len(),
            len == needle@.len(),
            last == total - len,
            from <= at <= last,
            first_occurrence(hay@, needle@, at as int) == first_occurrence(
                hay@,
                needle@,
                from as int,
            ),
        decreases last - at,
    {
        if stands_at(hay, needle, at, len, total) {
            return Some(at);
        }
        if at == last {
            assert(first_occurrence(hay@, needle@, at + 1) is None);
            return None;
        }
        at = at + 1;
    }
}

/// Exchanges the value of the first field `key` of the line `json` for
/// `new_value`. Gives nothing where the line has no such field, or no quote
/// closes its value.
pub fn json_replace(json: &str, key: &str, new_value: &str) -> (line: Option<String>)
    ensures
        match line {
            Some(text) => with_field(json@, key@, new_value@) == Some(text@),
            None => with_field(json@, key@, new_value@) is None,
        },
{
    let mut pattern = String::from_str("\"");
    pattern.append(key);
    pattern.append("\":\"");
    proof {
        reveal_strlit("\"");
        reveal_strlit("\":\"");
        assert(pattern@ =~= field_opening(key@));
        assert("\""@ =~= seq!['"']);
    }
    let total = json.unicode_len();
    let at = match find(json, pattern.as_str(), 0) {
        Some(at) => at,
        None => {
            return None;
        },
    };
    proof {
        lemma_first_occurrence(json@, pattern@, 0);
    }
    let begin = at + pattern.as_str().unicode_len();
    let end = match find(json, "\"", begin) {
        Some(end) => end,
        None => {
            return None;
        },
    };
    proof {
        lemma_first_occurrence(json@, seq!['"'], begin as int);
    }
    let mut line = String::from_str(json.substring_char(0, begin));
    line.append(new_value);
    line.append(json.substring_char(end, total));
    Some(line)
}

} // verus!
