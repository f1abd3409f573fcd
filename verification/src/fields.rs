//! Lines of text, the fields of a line, and the whole numbers in a field.
use vstd::prelude::*;

verus! {

/// Whether a character is white space, as Unicode defines it.
pub open spec fn is_white(c: char) -> bool {
    let n = c as u32;
    ||| 0x9 <= n <= 0xD
    ||| n == 0x20
    ||| n == 0x85
    ||| n == 0xA0
    ||| n == 0x1680
    ||| 0x2000 <= n <= 0x200A
    ||| n == 0x2028
    ||| n == 0x2029
    ||| n == 0x202F
    ||| n == 0x205F
    ||| n == 0x3000
}

fn white(c: char) -> (yes: bool)
    ensures
        yes == is_white(c),
{
    let n: u32 = c as u32;
    (0x9 <= n && n <= 0xD) || n == 0x20 || n == 0x85 || n == 0xA0 || n == 0x1680 || (0x2000 <= n
        && n <= 0x200A) || n == 0x2028 || n == 0x2029 || n == 0x202F || n == 0x205F || n == 0x3000
}

/// Text in the middle of being split.
#[verifier::ext_equal]
pub ghost struct Split {
    /// The lines that are complete, as their fields.
    pub rows: Seq<Seq<Seq<char>>>,
    /// The complete fields of the current line.
    pub fields: Seq<Seq<char>>,
    /// The characters of the current field.
    pub field: Seq<char>,
}

/// The fields of a line once its last field, if any, is complete.
pub open spec fn closed_fields(fields: Seq<Seq<char>>, field: Seq<char>) -> Seq<Seq<char>> {
    if field.len() == 0 {
        fields
    } else {
        fields.push(field)
    }
}

/// What the first `k` characters of a text split into: a line feed ends a
/// line, and white space ends a field.
pub open spec fn split(text: Seq<char>, k: int) -> Split
    decreases k,
{
    if k <= 0 {
        Split { rows: Seq::empty(), fields: Seq::empty(), field: Seq::empty() }
    } else {
        let before = split(text, k - 1);
        let c = text[k - 1];
        if c == '\n' {
            Split {
                rows: before.rows.push(closed_fields(before.fields, before.field)),
                fields: Seq::empty(),
                field: Seq::empty(),
            }
        } else if is_white(c) {
            Split {
                rows: before.rows,
                fields: closed_fields(before.fields, before.field),
                field: Seq::empty(),
            }
        } else {
            Split { field: before.field.push(c), ..before }
        }
    }
}

/// The lines of a text, each as its fields.
pub open spec fn rows(text: Seq<char>) -> Seq<Seq<Seq<char>>> {
    let all = split(text, text.len() as int);
    all.rows.push(closed_fields(all.fields, all.field))
}

/// The fields of a line, as they are held.
pub open spec fn fields_of(line: Seq<Vec<char>>) -> Seq<Seq<char>> {
    line.map_values(|field: Vec<char>| field@)
}

/// The lines of a text, as they are held.
pub open spec fn rows_of(lines: Seq<Vec<Vec<char>>>) -> Seq<Seq<Seq<char>>> {
    lines.map_values(|line: Vec<Vec<char>>| fields_of(line@))
}

/// Splits a text into lines and fields.
pub fn split_rows(text: &Vec<char>) -> (lines: Vec<Vec<Vec<char>>>)
    ensures
        rows_of(lines@) == rows(text@),
{
    let mut lines: Vec<Vec<Vec<char>>> = Vec::new();
    let mut line: Vec<Vec<char>> = Vec::new();
    let mut field: Vec<char> = Vec::new();
    let mut k: usize = 0;
    proof {
        assert(rows_of(lines@) =~= Seq::empty());
        assert(fields_of(line@) =~= Seq::empty());
        assert(field@ =~= Seq::empty());
    }
    while k < text.len()
        invariant
            k <= text@.len(),
            rows_of(lines@) == split(text@, k as int).rows,
            fields_of(line@) == split(text@, k as int).fields,
            field@ == split(text@, k as int).field,
        decreases text.len() - k,
    {
        let c: char = text[k];
        let ghost (old_lines, old_line, old_field) = (lines@, line@, field@);
        if white(c) {
            if field.len() > 0 {
                line.push(field);
                field = Vec::new();
                assert(fields_of(line@) =~= fields_of(old_line).push(old_field));
            }
            if c == '\n' {
                let ghost closed = fields_of(line@);
                lines.push(line);
                line = Vec::new();
                assert(rows_of(lines@) =~= rows_of(old_lines).push(closed));
                assert(fields_of(line@) =~= Seq::empty());
            }
            assert(field@ =~= Seq::empty());
        } else {
            field.push(c);
        }
        k = k + 1;
    }
    let ghost (old_lines, old_line, old_field) = (lines@, line@, field@);
    if field.len() > 0 {
        line.push(field);
        assert(fields_of(line@) =~= fields_of(old_line).push(old_field));
    }
    let ghost closed = fields_of(line@);
    lines.push(line);
    assert(rows_of(lines@) =~= rows_of(old_lines).push(closed));
    lines
}

// -- Whole numbers -----------------------------------------------------------

/// The value of a decimal digit.
pub open spec fn digit_value(c: char) -> Option<int> {
    if '0' <= c && c <= '9' {
        Some(c as u32 - 48)
    } else {
        None
    }
}

/// The value of the first `k` characters as decimal digits.
pub open spec fn digits_value(text: Seq<char>, k: int) -> Option<int>
    decreases k,
{
    if k <= 0 {
        Some(0)
    } else {
        match (digits_value(text, k - 1), digit_value(text[k - 1])) {
            (Some(value), Some(digit)) => Some(10 * value + digit),
            _ => None,
        }
    }
}

/// The digits of a number, without its sign.
pub open spec fn unsigned_part(text: Seq<char>) -> Seq<char> {
    if text.len() > 0 && (text[0] == '-' || text[0] == '+') {
        text.skip(1)
    } else {
        text
    }
}

/// The 64-bit number a text is: a sign or none, and at least one digit.
pub open spec fn integer(text: Seq<char>) -> Option<i64> {
    let digits = unsigned_part(text);
    match digits_value(digits, digits.len() as int) {
        Some(value) => {
            let signed = if text.len() > 0 && text[0] == '-' { -value } else { value };
            if digits.len() > 0 && i64::MIN <= signed <= i64::MAX {
                Some(signed as i64)
            } else {
                None
            }
        },
        None => None,
    }
}

proof fn lemma_digits_monotone(text: Seq<char>, k: int, m: int)
    requires
        0 <= k <= m <= text.len(),
    ensures
        digits_value(text, k) is None ==> digits_value(text, m) is None,
        digits_value(text, m) is Some ==> digits_value(text, k) is Some && 0 <= digits_value(
            text,
            k,
        )->Some_0 <= digits_value(text, m)->Some_0,
    decreases m,
{
    if k < m {
        lemma_digits_monotone(text, k, m - 1);
        if digits_value(text, m) is Some {
            lemma_digits_monotone(text, 0, m - 1);
        }
    } else if k > 0 {
        lemma_digits_monotone(text, k - 1, k - 1);
    }
}

/// Reads a 64-bit number from part of a text.
pub fn parse_integer(text: &Vec<char>, start: usize, end: usize) -> (value: Option<i64>)
    requires
        start <= end <= text@.len(),
    ensures
        value == integer(text@.subrange(start as int, end as int)),
{
    let ghost whole = text@.subrange(start as int, end as int);
    let ghost digits = unsigned_part(whole);
    let negative = start < end && text[start] == '-';
    let signed = start < end && (text[start] == '-' || text[start] == '+');
    assert(start < end ==> whole[0] == text@[start as int]);
    let first: usize = if signed { start + 1 } else { start };
    assert(digits =~= text@.subrange(first as int, end as int));
    if first == end {
        return None;
    }
    let limit: i128 = 0x8000_0000_0000_0000;
    let mut total: i128 = 0;
    let mut i: usize = first;
    while i < end
        invariant
            first <= i <= end <= text@.len(),
            digits == text@.subrange(first as int, end as int),
            digits_value(digits, i - first) == Some(total as int),
            0 <= total <= limit,
            limit == 0x8000_0000_0000_0000,
            whole == text@.subrange(start as int, end as int),
            digits == unsigned_part(whole),
        decreases end - i,
    {
        let c: char = text[i];
        assert(digits[i - first] == c);
        if c < '0' || c > '9' {
            proof {
                assert(digits_value(digits, i - first + 1) is None);
                lemma_digits_monotone(digits, i - first + 1, digits.len() as int);
            }
            return None;
        }
        total = 10 * total + (c as u32 - 48) as i128;
        i = i + 1;
        if total > limit {
            proof {
                lemma_digits_monotone(digits, i - first, digits.len() as int);
            }
            return None;
        }
    }
    let value: i128 = if negative { 0 - total } else { total };
    assert(whole.len() > 0);
    if value > 0x7FFF_FFFF_FFFF_FFFF {
        return None;
    }
    Some(value as i64)
}

/// Where part `n` of a field starts, the parts being what its slashes
/// separate, or nothing when it has fewer.
pub open spec fn part_start(field: Seq<char>, n: nat) -> Option<int>
    decreases n,
{
    if n == 0 {
        Some(0)
    } else {
        match part_start(field, (n - 1) as nat) {
            Some(start) => {
                let slash = next_slash(field, start);
                if slash < field.len() {
                    Some(slash + 1)
                } else {
                    None
                }
            },
            None => None,
        }
    }
}

/// The first slash of a field from `start` on, or its end.
pub open spec fn next_slash(field: Seq<char>, start: int) -> int
    decreases field.len() - start,
{
    if start >= field.len() || field[start] == '/' {
        start
    } else {
        next_slash(field, start + 1)
    }
}

/// The number that part `n` of a field is, when it is one.
pub open spec fn part(field: Seq<char>, n: nat) -> Option<i64> {
    match part_start(field, n) {
        Some(start) => integer(field.subrange(start, next_slash(field, start))),
        None => None,
    }
}

proof fn lemma_next_slash(field: Seq<char>, start: int)
    requires
        0 <= start <= field.len(),
    ensures
        start <= next_slash(field, start) <= field.len(),
    decreases field.len() - start,
{
    if start < field.len() && field[start] != '/' {
        lemma_next_slash(field, start + 1);
    }
}

fn find_slash(field: &Vec<char>, start: usize) -> (at: usize)
    requires
        start <= field@.len(),
    ensures
        at == next_slash(field@, start as int),
        start <= at <= field@.len(),
{
    let mut at: usize = start;
    while at < field.len() && field[at] != '/'
        invariant
            start <= at <= field@.len(),
            next_slash(field@, start as int) == next_slash(field@, at as int),
        decreases field.len() - at,
    {
        at = at + 1;
    }
    at
}

/// A face corner: the numbers of its position, its texture coordinate and its
/// normal. A position it must have; the others are zero when it has none.
pub open spec fn corner(field: Seq<char>) -> Option<(i64, i64, i64)> {
    match part(field, 0) {
        Some(position) => Some(
            (
                position,
                match part(field, 1) {
                    Some(uv) => uv,
                    None => 0,
                },
                match part(field, 2) {
                    Some(normal) => normal,
                    None => 0,
                },
            ),
        ),
        None => None,
    }
}

/// Reads a face corner.
pub fn parse_corner(field: &Vec<char>) -> (found: Option<(i64, i64, i64)>)
    ensures
        found == corner(field@),
{
    proof {
        reveal_with_fuel(part_start, 3);
    }
    let first: usize = find_slash(field, 0);
    let position: i64 = match parse_integer(field, 0, first) {
        Some(position) => position,
        None => return None,
    };
    let mut uv: i64 = 0;
    let mut normal: i64 = 0;
    if first < field.len() {
        let second: usize = find_slash(field, first + 1);
        if let Some(value) = parse_integer(field, first + 1, second) {
            uv = value;
        }
        if second < field.len() {
            let third: usize = find_slash(field, second + 1);
            if let Some(value) = parse_integer(field, second + 1, third) {
                normal = value;
            }
        }
    }
    Some((position, uv, normal))
}

} // verus!
