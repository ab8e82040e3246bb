use vstd::prelude::*;
use crate::text::chars_of;
use vstd::utf8::{char_is_scalar, encode_scalar, encode_utf8};

verus! {

/// A position in a text: a zero-based line and, within it, a zero-based column
/// counted in UTF-16 code units.
#[derive(Debug, Clone, Copy, PartialEq, Eq, Structural)]
pub struct Position {
    pub line: u32,
    pub character: u32,
}

/// How many bytes UTF-8 takes for a character (`char::len_utf8`).
pub open spec fn utf8_len(c: char) -> nat {
    if (c as u32) < 0x80 {
        1
    } else if (c as u32) < 0x800 {
        2
    } else if (c as u32) < 0x1_0000 {
        3
    } else {
        4
    }
}

/// How many code units UTF-16 takes for a character (`char::len_utf16`).
pub open spec fn utf16_len(c: char) -> nat {
    if (c as u32) < 0x1_0000 {
        1
    } else {
        2
    }
}

/// The UTF-8 length of the first `n` characters.
pub open spec fn byte_len(s: Seq<char>, n: nat) -> nat
    decreases n,
{
    if n == 0 || n > s.len() {
        0
    } else {
        byte_len(s, (n - 1) as nat) + utf8_len(s[n - 1])
    }
}

/// The position just after the first `n` characters.
pub open spec fn position_after(s: Seq<char>, n: nat) -> (nat, nat)
    decreases n,
{
    if n == 0 || n > s.len() {
        (0, 0)
    } else {
        let (l, c) = position_after(s, (n - 1) as nat);
        if s[n - 1] == '\n' {
            (l + 1, 0)
        } else {
            (l, c + utf16_len(s[n - 1]))
        }
    }
}

/// How many characters, from the `i`-th on, lie wholly before byte `offset`.
pub open spec fn chars_before_from(s: Seq<char>, i: nat, offset: nat) -> nat
    decreases s.len() - i,
{
    if i < s.len() && byte_len(s, i + 1) <= offset {
        chars_before_from(s, i + 1, offset)
    } else {
        i
    }
}

/// The position of byte `offset`: after the characters that lie wholly before it.
pub open spec fn offset_position(s: Seq<char>, offset: nat) -> (nat, nat) {
    position_after(s, chars_before_from(s, 0, offset))
}

/// The index of the first character of line `line`, searching from `i`, which
/// starts line 0 of the search.
pub open spec fn line_start_from(s: Seq<char>, line: nat, i: nat) -> Option<nat>
    decreases s.len() - i, line,
{
    if line == 0 {
        Some(i)
    } else if i >= s.len() {
        None
    } else if s[i as int] == '\n' {
        line_start_from(s, (line - 1) as nat, i + 1)
    } else {
        line_start_from(s, line, i + 1)
    }
}

/// From character `i` of a line, how far `units` UTF-16 code units reach: to the
/// end of the line at most, and never into the middle of a character.
pub open spec fn column_end(s: Seq<char>, i: nat, units: nat) -> nat
    decreases s.len() - i,
{
    if i < s.len() && s[i as int] != '\n' && utf16_len(s[i as int]) <= units {
        column_end(s, i + 1, (units - utf16_len(s[i as int])) as nat)
    } else {
        i
    }
}

/// The byte offset of a position; `None` when the text has fewer lines. A column
/// past the end of its line stands for the line's end, and one inside a character
/// for that character's start.
pub open spec fn position_offset(s: Seq<char>, line: nat, character: nat) -> Option<nat> {
    match line_start_from(s, line, 0) {
        None => None,
        Some(start) => Some(byte_len(s, column_end(s, start, character))),
    }
}

fn utf8_len_exec(c: char) -> (n: usize)
    ensures
        n == utf8_len(c),
{
    let u = c as u32;
    if u < 0x80 {
        1
    } else if u < 0x800 {
        2
    } else if u < 0x1_0000 {
        3
    } else {
        4
    }
}

fn utf16_len_exec(c: char) -> (n: u32)
    ensures
        n == utf16_len(c),
{
    if (c as u32) < 0x1_0000 {
        1
    } else {
        2
    }
}

proof fn lemma_byte_len_step(s: Seq<char>, n: nat)
    requires
        n < s.len(),
    ensures
        byte_len(s, n + 1) == byte_len(s, n) + utf8_len(s[n as int]),
{
}

proof fn lemma_byte_len_bound(s: Seq<char>, n: nat)
    requires
        n <= s.len(),
    ensures
        byte_len(s, n) <= 4 * n,
        n <= byte_len(s, n),
    decreases n,
{
    if n > 0 {
        lemma_byte_len_bound(s, (n - 1) as nat);
    }
}

proof fn lemma_position_bound(s: Seq<char>, n: nat)
    requires
        n <= s.len(),
    ensures
        position_after(s, n).0 <= n,
        position_after(s, n).1 <= 2 * n,
    decreases n,
{
    if n > 0 {
        lemma_position_bound(s, (n - 1) as nat);
    }
}

/// The position of a byte offset in `source`, whose line and column fit the `u32`
/// fields of a [`Position`].
pub fn offset_to_position(source: &str, offset: usize) -> (p: Position)
    requires
        offset_position(source@, offset as nat).0 <= u32::MAX,
        offset_position(source@, offset as nat).1 <= u32::MAX,
    ensures
        (p.line as nat, p.character as nat) == offset_position(source@, offset as nat),
{
    let s = chars_of(source);
    let mut i: usize = 0;
    let mut bytes: usize = 0;
    let mut line: u128 = 0;
    let mut character: u128 = 0;
    while i < s.len() && utf8_len_exec(s[i]) <= offset - bytes
        invariant
            s@ == source@,
            i <= s@.len(),
            bytes == byte_len(s@, i as nat),
            bytes <= offset,
            chars_before_from(s@, 0, offset as nat) == chars_before_from(s@, i as nat, offset as nat),
            (line as nat, character as nat) == position_after(s@, i as nat),
        decreases s.len() - i,
    {
        let c = s[i];
        let w = utf8_len_exec(c);
        proof {
            lemma_byte_len_step(s@, i as nat);
            lemma_byte_len_bound(s@, i as nat);
            lemma_position_bound(s@, i as nat);
        }
        bytes = bytes + w;
        if c == '\n' {
            line = line + 1;
            character = 0;
        } else {
            character = character + utf16_len_exec(c) as u128;
        }
        i = i + 1;
    }
    proof {
        if i < s@.len() {
            lemma_byte_len_step(s@, i as nat);
        }
    }
    Position { line: line as u32, character: character as u32 }
}

/// The byte offset of a position in `source`; `None` when the text has fewer lines.
/// A column past the end of its line stands for the line's end, and one inside a
/// character for that character's start. The text's UTF-8 length fits a `usize`, as
/// that of any text in memory does.
pub fn position_to_offset(source: &str, position: Position) -> (r: Option<usize>)
    requires
        byte_len(source@, source@.len()) <= usize::MAX,
    ensures
        match r {
            Some(o) => position_offset(source@, position.line as nat, position.character as nat)
                == Some(o as nat),
            None => position_offset(source@, position.line as nat, position.character as nat) is None,
        },
{
    let s = chars_of(source);
    // find the start of the line
    let mut i: usize = 0;
    let mut line: u32 = position.line;
    while line > 0
        invariant
            s@ == source@,
            i <= s@.len(),
            line_start_from(s@, position.line as nat, 0) == line_start_from(s@, line as nat, i as nat),
        decreases s.len() - i, line,
    {
        if i >= s.len() {
            return None;
        }
        if s[i] == '\n' {
            line = line - 1;
        }
        i = i + 1;
    }
    // walk the line within the column
    let mut units: u32 = position.character;
    let ghost start = i;
    while i < s.len() && s[i] != '\n' && utf16_len_exec(s[i]) <= units
        invariant
            s@ == source@,
            start <= i <= s@.len(),
            line_start_from(s@, position.line as nat, 0) == Some(start as nat),
            column_end(s@, start as nat, position.character as nat) == column_end(s@, i as nat, units as nat),
        decreases s.len() - i,
    {
        units = units - utf16_len_exec(s[i]);
        i = i + 1;
    }
    // count its bytes
    let mut k: usize = 0;
    let mut bytes: usize = 0;
    while k < i
        invariant
            s@ == source@,
            byte_len(s@, s@.len()) <= usize::MAX,
            k <= i <= s@.len(),
            bytes == byte_len(s@, k as nat),
        decreases i - k,
    {
        proof {
            lemma_byte_len_step(s@, k as nat);
            lemma_byte_len_monotone(s@, (k + 1) as nat, s@.len());
        }
        bytes = bytes + utf8_len_exec(s[k]);
        k = k + 1;
    }
    Some(bytes)
}

/// How many of `units` UTF-16 code units are left when [`column_end`] stops.
pub open spec fn column_left(s: Seq<char>, i: nat, units: nat) -> nat
    decreases s.len() - i,
{
    if i < s.len() && s[i as int] != '\n' && utf16_len(s[i as int]) <= units {
        column_left(s, i + 1, (units - utf16_len(s[i as int])) as nat)
    } else {
        units
    }
}

proof fn lemma_byte_len_monotone(s: Seq<char>, j: nat, k: nat)
    requires
        j <= k <= s.len(),
    ensures
        byte_len(s, j) <= byte_len(s, k),
        j < k ==> byte_len(s, j) < byte_len(s, k),
    decreases k - j,
{
    if j < k {
        lemma_byte_len_monotone(s, j, (k - 1) as nat);
    }
}

proof fn lemma_chars_before_byte_len(s: Seq<char>, j: nat, k: nat)
    requires
        j <= k <= s.len(),
    ensures
        chars_before_from(s, j, byte_len(s, k)) == k,
    decreases k - j,
{
    if j < k {
        lemma_byte_len_monotone(s, j + 1, k);
        lemma_chars_before_byte_len(s, j + 1, k);
    } else if k < s.len() {
        lemma_byte_len_monotone(s, k, k + 1);
    }
}

proof fn lemma_line_start_position(s: Seq<char>, line: nat, i: nat, a: nat)
    requires
        i <= s.len(),
        position_after(s, i).0 == a,
        line == 0 ==> position_after(s, i).1 == 0,
    ensures
        line_start_from(s, line, i) matches Some(st) ==> st <= s.len() && position_after(s, st) == (
            a + line,
            0nat,
        ),
    decreases s.len() - i, line,
{
    if line == 0 {
    } else if i >= s.len() {
    } else if s[i as int] == '\n' {
        lemma_line_start_position(s, (line - 1) as nat, i + 1, a + 1);
    } else {
        lemma_line_start_position(s, line, i + 1, a);
    }
}

proof fn lemma_column_position(s: Seq<char>, i: nat, units: nat, a: nat, c: nat)
    requires
        i <= s.len(),
        position_after(s, i) == (a, c),
    ensures
        column_end(s, i, units) <= s.len(),
        column_left(s, i, units) <= units,
        position_after(s, column_end(s, i, units)) == (a, (c + units - column_left(s, i, units)) as nat),
    decreases s.len() - i,
{
    if i < s.len() && s[i as int] != '\n' && utf16_len(s[i as int]) <= units {
        let u = utf16_len(s[i as int]);
        lemma_column_position(s, i + 1, (units - u) as nat, a, c + u);
    }
}

/// A position whose column ends on a character boundary within its line maps to a
/// byte offset that maps back to the same position.
pub proof fn lemma_position_round_trip(s: Seq<char>, line: nat, character: nat)
    requires
        line_start_from(s, line, 0) matches Some(start) && column_left(s, start, character) == 0,
    ensures
        position_offset(s, line, character) matches Some(o) && offset_position(s, o) == (
            line,
            character,
        ),
{
    lemma_line_start_position(s, line, 0, 0);
    let start = line_start_from(s, line, 0)->0;
    lemma_column_position(s, start, character, line, 0);
    let k = column_end(s, start, character);
    lemma_chars_before_byte_len(s, 0, k);
}

/// A character takes as many bytes as its UTF-8 encoding: 1 below U+0080, 2 below
/// U+0800, 3 below U+10000, 4 above.
pub proof fn lemma_utf8_len_is_encoding(c: char)
    ensures
        utf8_len(c) == encode_scalar(c as u32).len(),
{
    char_is_scalar(c);
}

/// A character takes two UTF-16 code units (a surrogate pair) exactly when it lies
/// beyond the Basic Multilingual Plane, where UTF-8 takes four bytes; every other
/// character takes one.
pub proof fn lemma_utf16_len_is_encoding(c: char)
    ensures
        utf16_len(c) == (if encode_scalar(c as u32).len() == 4 {
            2nat
        } else {
            1nat
        }),
        (c as u32) < 0x1_0000 ==> utf16_len(c) == 1,
{
    char_is_scalar(c);
}

proof fn lemma_encode_utf8_push_len(a: Seq<char>, x: char)
    ensures
        encode_utf8(a.push(x)).len() == encode_utf8(a).len() + encode_scalar(x as u32).len(),
    decreases a.len(),
{
    let ax = a.push(x);
    if a.len() > 0 {
        assert(ax.drop_first() =~= a.drop_first().push(x));
        assert(ax[0] == a[0]);
        lemma_encode_utf8_push_len(a.drop_first(), x);
        assert(encode_utf8(ax) == encode_scalar(a[0] as u32) + encode_utf8(ax.drop_first()));
        assert(encode_utf8(a) == encode_scalar(a[0] as u32) + encode_utf8(a.drop_first()));
    } else {
        assert(ax.drop_first() =~= Seq::<char>::empty());
        assert(ax[0] == x);
        assert(encode_utf8(ax) == encode_scalar(x as u32) + encode_utf8(ax.drop_first()));
        assert(encode_utf8(Seq::<char>::empty()).len() == 0);
        assert(a =~= Seq::<char>::empty());
    }
}

/// The bytes of the first `n` characters are those of their UTF-8 encoding: a byte
/// offset here is an index into the text's bytes (`as_bytes`), at a character
/// boundary.
pub proof fn lemma_byte_len_is_utf8(s: Seq<char>, n: nat)
    requires
        n <= s.len(),
    ensures
        byte_len(s, n) == encode_utf8(s.take(n as int)).len(),
    decreases n,
{
    if n > 0 {
        lemma_byte_len_is_utf8(s, (n - 1) as nat);
        assert(s.take(n as int) =~= s.take(n - 1).push(s[n - 1]));
        lemma_encode_utf8_push_len(s.take(n - 1), s[n - 1]);
        lemma_utf8_len_is_encoding(s[n - 1]);
    } else {
        assert(s.take(0) =~= Seq::<char>::empty());
    }
}

/// The columns of a line count UTF-16 code units: on a line that has no line break
/// before character `n`, the column after the first `n` characters is the UTF-16 length
/// of what precedes it, where only characters beyond U+FFFF take two units.
pub proof fn lemma_column_counts_utf16(s: Seq<char>, n: nat)
    requires
        n <= s.len(),
        forall|i: int| 0 <= i < n ==> s[i] != '\n',
    ensures
        position_after(s, n) == (0nat, utf16_units(s.take(n as int))),
    decreases n,
{
    if n > 0 {
        lemma_column_counts_utf16(s, (n - 1) as nat);
        let t = s.take(n as int);
        assert(t.drop_last() =~= s.take(n - 1));
        lemma_utf16_len_is_encoding(s[n - 1]);
    }
}

/// How many UTF-16 code units a character sequence takes: one per character, and one
/// more for each beyond U+FFFF.
pub open spec fn utf16_units(s: Seq<char>) -> nat
    decreases s.len(),
{
    if s.len() == 0 {
        0
    } else {
        utf16_units(s.drop_last()) + if (s.last() as u32) < 0x1_0000 {
            1nat
        } else {
            2nat
        }
    }
}

} // verus!
