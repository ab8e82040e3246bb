use vstd::prelude::*;

verus! {

broadcast use vstd::string::group_string_axioms;

/// The characters of a text, in order.
pub fn chars_of(s: &str) -> (v: Vec<char>)
    ensures
        v@ == s@,
{
    let mut v: Vec<char> = Vec::new();
    for c in it: s.chars()
        invariant
            it.seq() == s@,
            v@ == it.seq().take(it.index() as int),
    {
        v.push(c);
    }
    assert(v@ =~= s@);
    v
}

/// ASCII upper case of a character; other characters are left alone.
pub open spec fn ascii_upper(c: char) -> u32 {
    if 'a' <= c && c <= 'z' {
        (c as u32 - 32) as u32
    } else {
        c as u32
    }
}

/// Whether `word` equals `keyword` when ASCII letters of `word` are taken in upper case.
/// `keyword` is written in upper case.
pub open spec fn ascii_upper_eq(word: Seq<char>, keyword: Seq<char>) -> bool {
    word.len() == keyword.len() && forall|i: int|
        0 <= i < word.len() ==> #[trigger] ascii_upper(word[i]) == keyword[i] as u32
}

/// ASCII upper case of a character, as a code.
pub fn upper_code(c: char) -> (u: u32)
    ensures
        u == ascii_upper(c),
{
    if 'a' <= c && c <= 'z' {
        c as u32 - 32
    } else {
        c as u32
    }
}

/// Whether `word[start..end]` equals the upper-case `keyword`, ignoring ASCII case.
pub fn upper_eq_at(word: &Vec<char>, start: usize, end: usize, keyword: &Vec<char>) -> (b: bool)
    requires
        start <= end <= word@.len(),
    ensures
        b == ascii_upper_eq(word@.subrange(start as int, end as int), keyword@),
{
    if end - start != keyword.len() {
        return false;
    }
    let mut i: usize = 0;
    while i < keyword.len()
        invariant
            end - start == keyword@.len(),
            start <= end <= word@.len(),
            i <= keyword@.len(),
            forall|j: int| 0 <= j < i ==> ascii_upper(word@[start + j]) == keyword@[j] as u32,
        decreases keyword.len() - i,
    {
        if upper_code(word[start + i]) != keyword[i] as u32 {
            assert(ascii_upper(word@.subrange(start as int, end as int)[i as int]) != keyword@[i as int] as u32);
            return false;
        }
        i = i + 1;
    }
    true
}

/// Characters with the same code are the same character.
pub proof fn lemma_char_code_injective(c: char, d: char)
    requires
        c as u32 == d as u32,
    ensures
        c == d,
{
    assert((c as u32) as int == c as int);
    assert((d as u32) as int == d as int);
}

} // verus!
