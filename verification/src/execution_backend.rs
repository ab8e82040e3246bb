use vstd::prelude::*;
use crate::error::concat3;
use crate::runtime_error::{RuntimeError, RuntimeErrorModel};
use crate::text::{ascii_upper_eq, chars_of, upper_eq_at};

verus! {

/// Whether `c` is white space, as `char::is_whitespace` (the Unicode `White_Space`
/// property) says.
pub open spec fn is_white_space(c: char) -> bool {
    c == '\t' || c == '\n' || c == '\u{0B}' || c == '\u{0C}' || c == '\r' || c == ' '
        || c == '\u{85}' || c == '\u{A0}' || c == '\u{1680}' || ('\u{2000}' <= c && c
        <= '\u{200A}') || c == '\u{2028}' || c == '\u{2029}' || c == '\u{202F}' || c
        == '\u{205F}' || c == '\u{3000}'
}

/// The position of the first character at or after `i` that is not white space.
pub open spec fn trim_start_at(s: Seq<char>, i: nat) -> nat
    decreases s.len() - i,
{
    if i >= s.len() {
        s.len()
    } else if is_white_space(s[i as int]) {
        trim_start_at(s, i + 1)
    } else {
        i
    }
}

/// The position after the last character before `j` that is not white space.
pub open spec fn trim_end_at(s: Seq<char>, j: nat) -> nat
    decreases j,
{
    if j == 0 || j > s.len() {
        0
    } else if is_white_space(s[j - 1]) {
        trim_end_at(s, (j - 1) as nat)
    } else {
        j
    }
}

/// `str::trim`: the text without its leading and trailing white space.
pub open spec fn trim(s: Seq<char>) -> Seq<char> {
    let a = trim_start_at(s, 0);
    let b = trim_end_at(s, s.len());
    if a < b {
        s.subrange(a as int, b as int)
    } else {
        Seq::empty()
    }
}

/// Runtime execution backend mode.
#[derive(Debug, Clone, Copy, PartialEq, Eq, Structural)]
pub enum ExecutionBackend {
    /// AST interpreter execution path.
    Interpreter,
    /// Bytecode VM execution path.
    BytecodeVm,
}

/// The text that names a backend in configuration.
pub open spec fn backend_label(b: ExecutionBackend) -> Seq<char> {
    match b {
        ExecutionBackend::Interpreter => "interpreter"@,
        ExecutionBackend::BytecodeVm => "vm"@,
    }
}

/// The backend that a configuration text selects: after trimming white space, the
/// text must be `interpreter` or `vm` in any ASCII case.
pub open spec fn backend_named(text: Seq<char>) -> Option<ExecutionBackend> {
    let t = trim(text);
    if ascii_upper_eq(t, seq!['I', 'N', 'T', 'E', 'R', 'P', 'R', 'E', 'T', 'E', 'R']) {
        Some(ExecutionBackend::Interpreter)
    } else if ascii_upper_eq(t, seq!['V', 'M']) {
        Some(ExecutionBackend::BytecodeVm)
    } else {
        None
    }
}

/// The error for a configuration text that names no backend.
pub open spec fn invalid_backend_message(text: Seq<char>) -> Seq<char> {
    "invalid runtime.execution_backend '"@ + text + "'"@
}

fn is_white_space_exec(c: char) -> (b: bool)
    ensures
        b == is_white_space(c),
{
    c == '\t' || c == '\n' || c == '\u{0B}' || c == '\u{0C}' || c == '\r' || c == ' ' || c
        == '\u{85}' || c == '\u{A0}' || c == '\u{1680}' || ('\u{2000}' <= c && c <= '\u{200A}')
        || c == '\u{2028}' || c == '\u{2029}' || c == '\u{202F}' || c == '\u{205F}' || c
        == '\u{3000}'
}

/// The bounds of a text without its leading and trailing white space.
fn trim_bounds(s: &Vec<char>) -> (r: (usize, usize))
    ensures
        r.0 <= r.1 <= s@.len(),
        s@.subrange(r.0 as int, r.1 as int) == trim(s@),
{
    let mut a: usize = 0;
    while a < s.len() && is_white_space_exec(s[a])
        invariant
            a <= s@.len(),
            trim_start_at(s@, 0) == trim_start_at(s@, a as nat),
        decreases s.len() - a,
    {
        a = a + 1;
    }
    let mut b: usize = s.len();
    while b > 0 && is_white_space_exec(s[b - 1])
        invariant
            b <= s@.len(),
            trim_end_at(s@, s@.len()) == trim_end_at(s@, b as nat),
        decreases b,
    {
        b = b - 1;
    }
    assert(trim_start_at(s@, a as nat) == a || a == s@.len());
    if a < b {
        (a, b)
    } else {
        assert(s@.subrange(a as int, a as int) =~= Seq::<char>::empty());
        (a, a)
    }
}

impl ExecutionBackend {
    /// Parse backend selection text accepted by config/CLI surfaces.
    pub fn parse(text: &str) -> (r: Result<Self, RuntimeError>)
        ensures
            match r {
                Ok(b) => backend_named(text@) == Some(b),
                Err(e) => backend_named(text@) is None && e@ == RuntimeErrorModel::InvalidConfig(
                    invalid_backend_message(text@),
                ),
            },
    {
        let s = chars_of(text);
        let (a, b) = trim_bounds(&s);
        proof {
            reveal_strlit("INTERPRETER");
            reveal_strlit("VM");
            assert("INTERPRETER"@ =~= seq!['I', 'N', 'T', 'E', 'R', 'P', 'R', 'E', 'T', 'E', 'R']);
            assert("VM"@ =~= seq!['V', 'M']);
        }
        if upper_eq_at(&s, a, b, &chars_of("INTERPRETER")) {
            Ok(ExecutionBackend::Interpreter)
        } else if upper_eq_at(&s, a, b, &chars_of("VM")) {
            Ok(ExecutionBackend::BytecodeVm)
        } else {
            Err(RuntimeError::InvalidConfig(concat3("invalid runtime.execution_backend '", text, "'")))
        }
    }

    /// The text that names this backend in configuration.
    pub fn as_str(self) -> (s: &'static str)
        ensures
            s@ == backend_label(self),
    {
        match self {
            ExecutionBackend::Interpreter => "interpreter",
            ExecutionBackend::BytecodeVm => "vm",
        }
    }
}

impl Default for ExecutionBackend {
    fn default() -> (b: Self)
        ensures
            b == ExecutionBackend::Interpreter,
    {
        ExecutionBackend::Interpreter
    }
}

/// Provenance for selected runtime execution backend.
#[derive(Debug, Clone, Copy, PartialEq, Eq, Structural)]
pub enum ExecutionBackendSource {
    /// Built-in default selection.
    Default,
    /// Project configuration (`runtime.execution_backend`).
    Config,
    /// CLI override (`--execution-backend`).
    Flag,
}

/// The text that names a backend's provenance.
pub open spec fn source_label(s: ExecutionBackendSource) -> Seq<char> {
    match s {
        ExecutionBackendSource::Default => "default"@,
        ExecutionBackendSource::Config => "config"@,
        ExecutionBackendSource::Flag => "flag"@,
    }
}

impl ExecutionBackendSource {
    /// The text that names this provenance.
    pub fn as_str(self) -> (s: &'static str)
        ensures
            s@ == source_label(self),
    {
        match self {
            ExecutionBackendSource::Default => "default",
            ExecutionBackendSource::Config => "config",
            ExecutionBackendSource::Flag => "flag",
        }
    }
}

impl Default for ExecutionBackendSource {
    fn default() -> (s: Self)
        ensures
            s == ExecutionBackendSource::Default,
    {
        ExecutionBackendSource::Default
    }
}

/// A text without white space at either end trims to itself.
proof fn lemma_trim_of_unpadded(s: Seq<char>)
    requires
        s.len() > 0,
        !is_white_space(s[0]),
        !is_white_space(s[s.len() - 1]),
    ensures
        trim(s) == s,
{
    assert(trim_start_at(s, 0) == 0);
    assert(trim_end_at(s, s.len()) == s.len());
    assert(s.subrange(0, s.len() as int) =~= s);
}

/// The text that names a backend selects that backend: `parse(b.as_str())` is `b`.
pub proof fn lemma_parse_as_str(b: ExecutionBackend)
    ensures
        backend_named(backend_label(b)) == Some(b),
{
    reveal_strlit("interpreter");
    reveal_strlit("vm");
    let s = backend_label(b);
    lemma_trim_of_unpadded(s);
    match b {
        ExecutionBackend::Interpreter => {
            let kw = seq!['I', 'N', 'T', 'E', 'R', 'P', 'R', 'E', 'T', 'E', 'R'];
            assert forall|i: int| 0 <= i < s.len() implies #[trigger] crate::text::ascii_upper(s[i])
                == kw[i] as u32 by {
                assert(s =~= seq!['i', 'n', 't', 'e', 'r', 'p', 'r', 'e', 't', 'e', 'r']);
            }
        },
        ExecutionBackend::BytecodeVm => {
            let kw = seq!['V', 'M'];
            assert(s =~= seq!['v', 'm']);
            assert forall|i: int| 0 <= i < s.len() implies #[trigger] crate::text::ascii_upper(s[i])
                == kw[i] as u32 by {
                assert(s =~= seq!['v', 'm']);
            }
        },
    }
}

/// Whether every character of a text is white space.
pub open spec fn all_white_space(s: Seq<char>) -> bool {
    forall|i: int| 0 <= i < s.len() ==> is_white_space(#[trigger] s[i])
}

proof fn lemma_trim_start_skips(t: Seq<char>, i: nat, j: nat)
    requires
        i <= j <= t.len(),
        forall|x: int| i <= x < j ==> is_white_space(#[trigger] t[x]),
    ensures
        trim_start_at(t, i) == trim_start_at(t, j),
    decreases j - i,
{
    if i < j {
        lemma_trim_start_skips(t, i + 1, j);
    }
}

proof fn lemma_trim_end_skips(t: Seq<char>, i: nat, j: nat)
    requires
        i <= j <= t.len(),
        forall|x: int| i <= x < j ==> is_white_space(#[trigger] t[x]),
    ensures
        trim_end_at(t, j) == trim_end_at(t, i),
    decreases j - i,
{
    if i < j {
        lemma_trim_end_skips(t, i, (j - 1) as nat);
    }
}

/// Where trimming starts in `p + s` for a part `s` that is not all white space.
proof fn lemma_trim_start_shift(p: Seq<char>, s: Seq<char>, q: Seq<char>, i: nat)
    requires
        i <= s.len(),
    ensures
        trim_start_at(p + s + q, p.len() + i) == if trim_start_at(s, i) < s.len() {
            p.len() + trim_start_at(s, i)
        } else {
            trim_start_at(p + s + q, p.len() + s.len())
        },
    decreases s.len() - i,
{
    let t = p + s + q;
    if i < s.len() {
        assert(t[p.len() + i as int] == s[i as int]);
        if is_white_space(s[i as int]) {
            lemma_trim_start_shift(p, s, q, i + 1);
        }
    }
}

proof fn lemma_trim_end_shift(p: Seq<char>, s: Seq<char>, q: Seq<char>, j: nat)
    requires
        j <= s.len(),
    ensures
        trim_end_at(p + s + q, p.len() + j) == if trim_end_at(s, j) > 0 {
            p.len() + trim_end_at(s, j)
        } else {
            trim_end_at(p + s + q, p.len())
        },
    decreases j,
{
    let t = p + s + q;
    if j > 0 {
        assert(t[p.len() + j - 1] == s[j - 1]);
        if is_white_space(s[j - 1]) {
            lemma_trim_end_shift(p, s, q, (j - 1) as nat);
        }
    }
}

proof fn lemma_trim_start_bound(s: Seq<char>, i: nat)
    requires
        i <= s.len(),
    ensures
        i <= trim_start_at(s, i) <= s.len(),
        trim_start_at(s, i) < s.len() ==> !is_white_space(s[trim_start_at(s, i) as int]),
        forall|x: int| i <= x < trim_start_at(s, i) ==> is_white_space(#[trigger] s[x]),
    decreases s.len() - i,
{
    if i < s.len() && is_white_space(s[i as int]) {
        lemma_trim_start_bound(s, i + 1);
    }
}

proof fn lemma_trim_end_bound(s: Seq<char>, j: nat)
    requires
        j <= s.len(),
    ensures
        trim_end_at(s, j) <= j,
        trim_end_at(s, j) > 0 ==> !is_white_space(s[trim_end_at(s, j) - 1]),
        forall|x: int| trim_end_at(s, j) <= x < j ==> is_white_space(#[trigger] s[x]),
    decreases j,
{
    if j > 0 && is_white_space(s[j - 1]) {
        lemma_trim_end_bound(s, (j - 1) as nat);
    }
}

/// White space around a configuration text does not change the backend it selects:
/// `parse(p + s + q)` selects what `parse(s)` selects when `p` and `q` are white space.
pub proof fn lemma_parse_ignores_padding(p: Seq<char>, s: Seq<char>, q: Seq<char>)
    requires
        all_white_space(p),
        all_white_space(q),
    ensures
        backend_named(p + s + q) == backend_named(s),
{
    let t = p + s + q;
    assert forall|x: int| 0 <= x < p.len() implies is_white_space(#[trigger] t[x]) by {
        assert(t[x] == p[x]);
    }
    assert forall|x: int| p.len() + s.len() <= x < t.len() implies is_white_space(#[trigger] t[x]) by {
        assert(t[x] == q[x - p.len() - s.len()]);
    }
    lemma_trim_start_skips(t, 0, p.len());
    lemma_trim_end_skips(t, p.len() + s.len(), t.len());
    lemma_trim_start_shift(p, s, q, 0);
    lemma_trim_end_shift(p, s, q, s.len());
    lemma_trim_start_bound(s, 0);
    lemma_trim_end_bound(s, s.len());
    let a = trim_start_at(s, 0);
    let b = trim_end_at(s, s.len());
    if a < s.len() {
        // s holds a character that is not white space: trimming finds it from both ends
        assert(b > 0) by {
            if b == 0 {
                assert(is_white_space(s[a as int]));
            }
        }
        assert(a < b) by {
            if b <= a {
                assert(is_white_space(s[b - 1]) || b - 1 < a);
                if b - 1 < a {
                    assert(is_white_space(s[b - 1]));
                }
            }
        }
        assert(t.subrange(p.len() + a as int, p.len() + b as int) =~= s.subrange(a as int, b as int));
    } else {
        // s is all white space: so is t, and both trim to nothing
        assert forall|x: int| 0 <= x < t.len() implies is_white_space(#[trigger] t[x]) by {
            if p.len() <= x < p.len() + s.len() {
                assert(t[x] == s[x - p.len()]);
            }
        }
        lemma_trim_start_skips(t, 0, t.len());
        lemma_trim_end_skips(t, 0, t.len());
        assert(trim(t) =~= Seq::<char>::empty());
        assert(trim(s) =~= Seq::<char>::empty());
    }
}

/// A character in ASCII upper case.
pub open spec fn upper_char(c: char) -> char {
    if 'a' <= c && c <= 'z' {
        ((c as u32) - 32) as char
    } else {
        c
    }
}

/// A text in ASCII upper case.
pub open spec fn upper_text(s: Seq<char>) -> Seq<char> {
    Seq::new(s.len(), |i: int| upper_char(s[i]))
}

proof fn lemma_upper_char(c: char)
    ensures
        is_white_space(upper_char(c)) == is_white_space(c),
        crate::text::ascii_upper(upper_char(c)) == crate::text::ascii_upper(c),
{
    if 'a' <= c && c <= 'z' {
        let u = ((c as u32) - 32) as char;
        assert(u as u32 == (c as u32) - 32);
    }
}

proof fn lemma_trim_start_upper(s: Seq<char>, i: nat)
    ensures
        trim_start_at(upper_text(s), i) == trim_start_at(s, i),
    decreases s.len() - i,
{
    if i < s.len() {
        lemma_upper_char(s[i as int]);
        lemma_trim_start_upper(s, i + 1);
    }
}

proof fn lemma_trim_end_upper(s: Seq<char>, j: nat)
    ensures
        trim_end_at(upper_text(s), j) == trim_end_at(s, j),
    decreases j,
{
    if 0 < j <= s.len() {
        lemma_upper_char(s[j - 1]);
        lemma_trim_end_upper(s, (j - 1) as nat);
    }
}

proof fn lemma_upper_eq_same(x: Seq<char>, y: Seq<char>, k: Seq<char>)
    requires
        x.len() == y.len(),
        forall|i: int| 0 <= i < x.len() ==> #[trigger] crate::text::ascii_upper(x[i])
            == crate::text::ascii_upper(y[i]),
    ensures
        ascii_upper_eq(x, k) == ascii_upper_eq(y, k),
{
    if ascii_upper_eq(x, k) {
        assert forall|i: int| 0 <= i < y.len() implies #[trigger] crate::text::ascii_upper(y[i])
            == k[i] as u32 by {
            assert(crate::text::ascii_upper(x[i]) == k[i] as u32);
        }
    }
    if ascii_upper_eq(y, k) {
        assert forall|i: int| 0 <= i < x.len() implies #[trigger] crate::text::ascii_upper(x[i])
            == k[i] as u32 by {
            assert(crate::text::ascii_upper(y[i]) == k[i] as u32);
        }
    }
}

/// The ASCII case of a configuration text does not change the backend it selects:
/// `parse(s)` selects what `parse` of `s` in upper case selects.
pub proof fn lemma_parse_ignores_case(s: Seq<char>)
    ensures
        backend_named(upper_text(s)) == backend_named(s),
{
    let u = upper_text(s);
    assert(u.len() == s.len());
    lemma_trim_start_upper(s, 0);
    lemma_trim_end_upper(s, s.len());
    lemma_trim_start_bound(s, 0);
    lemma_trim_end_bound(s, s.len());
    let a = trim_start_at(s, 0);
    let b = trim_end_at(s, s.len());
    let tu = trim(u);
    let ts = trim(s);
    assert(tu.len() == ts.len());
    assert forall|i: int| 0 <= i < ts.len() implies #[trigger] crate::text::ascii_upper(tu[i])
        == crate::text::ascii_upper(ts[i]) by {
        lemma_upper_char(s[a + i]);
        assert(tu[i] == u[a + i]);
    }
    let k1 = seq!['I', 'N', 'T', 'E', 'R', 'P', 'R', 'E', 'T', 'E', 'R'];
    let k2 = seq!['V', 'M'];
    lemma_upper_eq_same(tu, ts, k1);
    lemma_upper_eq_same(tu, ts, k2);
}

} // verus!
