//! Text modifiers: total transforms from string to string, chained left to
//! right after an expression's value is resolved.
use vstd::prelude::*;
use colored::Colorize;
use crate::table::Table;
use crate::text::{is_digit, digit_value, push_char};

verus! {

/// The escape sequence that selects the graphic rendition `code`.
pub open spec fn sgr(code: Seq<char>) -> Seq<char> {
    seq!['\x1b', '['] + code + seq!['m']
}

/// The escape sequence that resets all styling.
pub open spec fn reset_seq() -> Seq<char> {
    seq!['\x1b', '[', '0', 'm']
}

/// Does `s` hold `t` as a contiguous part?
pub open spec fn contains(s: Seq<char>, t: Seq<char>) -> bool {
    exists|i: int| 0 <= i && i + t.len() <= s.len() && #[trigger] s.subrange(i, i + t.len()) == t
}

/// `s` with the rendition `style` put back after each reset inside it, so
/// that the styling resumes there.
pub open spec fn restyle(s: Seq<char>, style: Seq<char>) -> Seq<char>
    decreases s.len(),
{
    if s.len() == 0 {
        s
    } else if s.len() >= 4 && s.take(4) == reset_seq() {
        reset_seq() + style + restyle(s.skip(4), style)
    } else {
        seq![s[0]] + restyle(s.drop_first(), style)
    }
}

/// `r` is `s` styled with rendition `code`: when styling is off, `s` itself;
/// otherwise `s` enclosed in the rendition and a reset, with the rendition
/// resumed after each reset inside `s`.
pub open spec fn styled(code: Seq<char>, s: Seq<char>, r: Seq<char>) -> bool {
    r == s || r == sgr(code) + restyle(s, sgr(code)) + reset_seq()
}

pub open spec fn code_bright_red() -> Seq<char> { seq!['9', '1'] }
pub open spec fn code_red() -> Seq<char> { seq!['3', '1'] }
pub open spec fn code_yellow() -> Seq<char> { seq!['3', '3'] }
pub open spec fn code_green() -> Seq<char> { seq!['3', '2'] }
pub open spec fn code_white() -> Seq<char> { seq!['3', '7'] }
pub open spec fn code_bold() -> Seq<char> { seq!['1'] }
pub open spec fn code_underline() -> Seq<char> { seq!['4'] }

/// Relies on colored's `bright_red` and `ColoredString`'s `Display`.
#[verifier::external_body]
fn paint_bright_red(s: &str) -> (r: String)
    ensures
        styled(code_bright_red(), s@, r@),
{
    s.bright_red().to_string()
}

/// Relies on colored's `red` and `ColoredString`'s `Display`.
#[verifier::external_body]
fn paint_red(s: &str) -> (r: String)
    ensures
        styled(code_red(), s@, r@),
{
    s.red().to_string()
}

/// Relies on colored's `yellow` and `ColoredString`'s `Display`.
#[verifier::external_body]
fn paint_yellow(s: &str) -> (r: String)
    ensures
        styled(code_yellow(), s@, r@),
{
    s.yellow().to_string()
}

/// Relies on colored's `green` and `ColoredString`'s `Display`.
#[verifier::external_body]
fn paint_green(s: &str) -> (r: String)
    ensures
        styled(code_green(), s@, r@),
{
    s.green().to_string()
}

/// Relies on colored's `white` and `ColoredString`'s `Display`.
#[verifier::external_body]
fn paint_white(s: &str) -> (r: String)
    ensures
        styled(code_white(), s@, r@),
{
    s.white().to_string()
}

/// Relies on colored's `bold` and `ColoredString`'s `Display`.
#[verifier::external_body]
fn paint_bold(s: &str) -> (r: String)
    ensures
        styled(code_bold(), s@, r@),
{
    s.bold().to_string()
}

/// Relies on colored's `underline` and `ColoredString`'s `Display`.
#[verifier::external_body]
fn paint_underline(s: &str) -> (r: String)
    ensures
        styled(code_underline(), s@, r@),
{
    s.underline().to_string()
}

/// End of the numeric prefix from `i` on: ASCII digits with at most one
/// point, `dot` telling whether the point was already taken.
pub open spec fn prefix_end(s: Seq<char>, i: int, dot: bool) -> int
    decreases s.len() - i,
{
    if 0 <= i < s.len() && is_digit(s[i]) {
        prefix_end(s, i + 1, dot)
    } else if 0 <= i < s.len() && s[i] == '.' && !dot {
        prefix_end(s, i + 1, true)
    } else {
        i
    }
}

/// The numeric prefix of `s`: its longest leading run of digits with a
/// single decimal point.
pub open spec fn number_prefix(s: Seq<char>) -> Seq<char> {
    s.take(prefix_end(s, 0, false))
}

/// Index of the first `.` in `p`, or its length.
pub open spec fn dot_index(p: Seq<char>) -> nat
    decreases p.len(),
{
    if p.len() == 0 || p[0] == '.' {
        0
    } else {
        1 + dot_index(p.drop_first())
    }
}

pub open spec fn all_digits(p: Seq<char>) -> bool {
    forall|i: int| 0 <= i < p.len() ==> is_digit(#[trigger] p[i])
}

/// Digits before the decimal point.
pub open spec fn whole_part(p: Seq<char>) -> Seq<char> {
    p.take(dot_index(p) as int)
}

/// Digits after the decimal point (empty without one).
pub open spec fn fraction_part(p: Seq<char>) -> Seq<char> {
    if dot_index(p) < p.len() {
        p.skip(dot_index(p) + 1int)
    } else {
        Seq::empty()
    }
}

/// `p` is a decimal number: digits with at most one point, and at least one digit.
pub open spec fn is_decimal(p: Seq<char>) -> bool {
    &&& all_digits(whole_part(p))
    &&& all_digits(fraction_part(p))
    &&& whole_part(p).len() + fraction_part(p).len() > 0
}

/// Value of a string of digits.
pub open spec fn digits_value(d: Seq<char>) -> int
    decreases d.len(),
{
    if d.len() == 0 {
        0
    } else {
        digits_value(d.drop_last()) * 10 + digit_value(d.last())
    }
}

pub open spec fn has_nonzero(d: Seq<char>) -> bool {
    exists|i: int| 0 <= i < d.len() && #[trigger] d[i] != '0'
}

/// The decimal number `p` is strictly greater than the integer `t`.
pub open spec fn decimal_above(p: Seq<char>, t: int) -> bool {
    digits_value(whole_part(p)) > t || (digits_value(whole_part(p)) == t && has_nonzero(
        fraction_part(p),
    ))
}

/// How alarming a value reads.
#[derive(Clone, Copy, Debug, PartialEq, Eq, Structural)]
pub enum Severity {
    /// Above 90.
    Critical,
    /// Above 85.
    High,
    /// Above 75.
    Elevated,
    /// At most 75.
    Normal,
    /// No number to read.
    Unknown,
}

/// Severity of a value, read from its numeric prefix.
pub open spec fn severity_of(s: Seq<char>) -> Severity {
    let p = number_prefix(s);
    if !is_decimal(p) {
        Severity::Unknown
    } else if decimal_above(p, 90) {
        Severity::Critical
    } else if decimal_above(p, 85) {
        Severity::High
    } else if decimal_above(p, 75) {
        Severity::Elevated
    } else {
        Severity::Normal
    }
}

/// Rendition used for each severity.
pub open spec fn severity_code(v: Severity) -> Seq<char> {
    match v {
        Severity::Critical => code_bright_red(),
        Severity::High => code_red(),
        Severity::Elevated => code_yellow(),
        Severity::Normal => code_green(),
        Severity::Unknown => code_white(),
    }
}

proof fn lemma_dot_index(p: Seq<char>, n: int)
    requires
        0 <= n <= p.len(),
        forall|i: int| 0 <= i < n ==> #[trigger] p[i] != '.',
        n == p.len() || p[n] == '.',
    ensures
        dot_index(p) == n,
    decreases n,
{
    if n > 0 {
        let t = p.drop_first();
        assert forall|i: int| 0 <= i < n - 1 implies #[trigger] t[i] != '.' by {
            assert(t[i] == p[i + 1]);
        }
        if n - 1 < t.len() {
            assert(t[n - 1] == p[n]);
        }
        lemma_dot_index(t, n - 1);
    }
}

/// Value of `d`, capped at 1000.
fn capped_value(d: &Vec<char>) -> (r: u32)
    requires
        all_digits(d@),
    ensures
        r == if digits_value(d@) < 1000 { digits_value(d@) } else { 1000 },
{
    let mut v: u32 = 0;
    let mut i: usize = 0;
    while i < d.len()
        invariant
            i <= d@.len(),
            all_digits(d@),
            v == if digits_value(d@.take(i as int)) < 1000 { digits_value(d@.take(i as int)) } else { 1000 },
            digits_value(d@.take(i as int)) >= 0,
        decreases d@.len() - i,
    {
        let c = d[i];
        assert(is_digit(d@[i as int]));
        let dv = (c as u32) - 48;
        proof {
            let t = d@.take(i + 1);
            assert(t.drop_last() == d@.take(i as int));
            assert(t.last() == c);
        }
        if v >= 1000 {
            v = 1000;
        } else {
            let w = v * 10 + dv;
            v = if w < 1000 { w } else { 1000 };
        }
        i = i + 1;
    }
    assert(d@.take(d@.len() as int) == d@);
    v
}

/// Is any character of `d` other than `0`?
fn any_nonzero(d: &Vec<char>) -> (r: bool)
    ensures
        r == has_nonzero(d@),
{
    let mut i: usize = 0;
    while i < d.len()
        invariant
            i <= d@.len(),
            forall|j: int| 0 <= j < i ==> d@[j] == '0',
        decreases d@.len() - i,
    {
        if d[i] != '0' {
            assert(d@[i as int] != '0');
            return true;
        }
        i = i + 1;
    }
    false
}

/// The severity of a value: its numeric prefix (the longest leading run of
/// digits with a single decimal point) read as a decimal number and compared with
/// the thresholds 90, 85 and 75, each strictly; `Unknown` where the prefix is
/// not a decimal number.
pub fn severity(s: &str) -> (r: Severity)
    ensures
        r == severity_of(s@),
{
    let n = s.unicode_len();
    let mut k: usize = 0;
    let mut dot = false;
    let mut more = true;
    while more && k < n
        invariant
            n == s@.len(),
            k <= n,
            prefix_end(s@, 0, false) == prefix_end(s@, k as int, dot),
            !more ==> prefix_end(s@, k as int, dot) == k,
        decreases n - k + (if more { 1int } else { 0int }),
    {
        let c = s.get_char(k);
        if '0' <= c && c <= '9' {
            k = k + 1;
        } else if c == '.' && !dot {
            dot = true;
            k = k + 1;
        } else {
            more = false;
        }
    }
    let ghost p = number_prefix(s@);
    // split the prefix at its first point
    let mut whole: Vec<char> = Vec::new();
    let mut frac: Vec<char> = Vec::new();
    let mut j: usize = 0;
    while j < k && s.get_char(j) != '.'
        invariant
            p == s@.take(k as int),
            k <= n == s@.len(),
            j <= k,
            whole@ == p.take(j as int),
            forall|i: int| 0 <= i < j ==> #[trigger] p[i] != '.',
        decreases k - j,
    {
        let c = s.get_char(j);
        whole.push(c);
        assert(whole@ =~= p.take(j + 1));
        j = j + 1;
    }
    proof {
        lemma_dot_index(p, j as int);
    }
    let has_point = j < k;
    if has_point {
        let mut t: usize = j + 1;
        while t < k
            invariant
                p == s@.take(k as int),
                k <= n == s@.len(),
                j < k,
                j + 1 <= t <= k,
                frac@ == p.subrange(j + 1, t as int),
            decreases k - t,
        {
            let c = s.get_char(t);
            frac.push(c);
            assert(frac@ =~= p.subrange(j + 1, t + 1));
            t = t + 1;
        }
        assert(frac@ =~= fraction_part(p));
    } else {
        assert(frac@ =~= fraction_part(p));
    }
    // check that both parts are digits only
    let mut ok = whole.len() + frac.len() > 0;
    let mut i: usize = 0;
    while i < whole.len()
        invariant
            ok ==> forall|m: int| 0 <= m < i ==> is_digit(#[trigger] whole@[m]),
            !ok ==> !is_decimal(p),
            whole@ == whole_part(p),
            frac@ == fraction_part(p),
            ok ==> whole@.len() + frac@.len() > 0,
            whole@.len() + frac@.len() > 0 || !ok,
        decreases whole@.len() - i,
    {
        if !(whole[i] >= '0' && whole[i] <= '9') {
            ok = false;
        }
        i = i + 1;
    }
    let mut i: usize = 0;
    while i < frac.len()
        invariant
            ok ==> all_digits(whole@),
            ok ==> forall|m: int| 0 <= m < i ==> is_digit(#[trigger] frac@[m]),
            !ok ==> !is_decimal(p),
            whole@ == whole_part(p),
            frac@ == fraction_part(p),
            ok ==> whole@.len() + frac@.len() > 0,
            whole@.len() + frac@.len() > 0 || !ok,
        decreases frac@.len() - i,
    {
        if !(frac[i] >= '0' && frac[i] <= '9') {
            ok = false;
        }
        i = i + 1;
    }
    if !ok {
        return Severity::Unknown;
    }
    assert(is_decimal(p));
    let v = capped_value(&whole);
    let nz = any_nonzero(&frac);
    if v > 90 || (v == 90 && nz) {
        Severity::Critical
    } else if v > 85 || (v == 85 && nz) {
        Severity::High
    } else if v > 75 || (v == 75 && nz) {
        Severity::Elevated
    } else {
        Severity::Normal
    }
}

/// Colours `s` by its severity: bright red above 90, red above 85, yellow
/// above 75, green otherwise, and white where it holds no number. The text
/// itself is kept.
pub fn warn_color(s: &str) -> (r: String)
    ensures
        styled(severity_code(severity_of(s@)), s@, r@),
{
    match severity(s) {
        Severity::Critical => paint_bright_red(s),
        Severity::High => paint_red(s),
        Severity::Elevated => paint_yellow(s),
        Severity::Normal => paint_green(s),
        Severity::Unknown => paint_white(s),
    }
}

/// Underlines `s`.
pub fn underline(s: &str) -> (r: String)
    ensures
        styled(code_underline(), s@, r@),
{
    paint_underline(s)
}

/// Sets `s` in bold.
pub fn bold(s: &str) -> (r: String)
    ensures
        styled(code_bold(), s@, r@),
{
    paint_bold(s)
}

/// Add a percent symbol % to string
pub fn percent(s: &str) -> (r: String)
    ensures
        r@ == s@.push('%'),
{
    let mut r = String::from_str(s);
    push_char(&mut r, '%');
    r
}

/// The modifiers a template may name.
#[derive(Clone, Copy, Debug, PartialEq, Eq, Structural)]
pub enum Modifier {
    WarnColor,
    Bold,
    Underline,
    Percent,
}

/// `r` is a possible result of modifier `m` on `s`.
pub open spec fn modifies(m: Modifier, s: Seq<char>, r: Seq<char>) -> bool {
    match m {
        Modifier::WarnColor => styled(severity_code(severity_of(s)), s, r),
        Modifier::Bold => styled(code_bold(), s, r),
        Modifier::Underline => styled(code_underline(), s, r),
        Modifier::Percent => r == s.push('%'),
    }
}

/// `r` is a possible result of applying the modifiers `ms` to `s`, first to last.
pub open spec fn chain(ms: Seq<Modifier>, s: Seq<char>, r: Seq<char>) -> bool
    decreases ms.len(),
{
    if ms.len() == 0 {
        r == s
    } else {
        exists|mid: Seq<char>| chain(ms.drop_last(), s, mid) && #[trigger] modifies(ms.last(), mid, r)
    }
}

proof fn lemma_chain_step(ms: Seq<Modifier>, s: Seq<char>, mid: Seq<char>, r: Seq<char>)
    requires
        ms.len() > 0,
        chain(ms.drop_last(), s, mid),
        modifies(ms.last(), mid, r),
    ensures
        chain(ms, s, r),
{
}

impl Modifier {
    /// Applies this modifier to `s`.
    pub fn apply(self, s: &str) -> (r: String)
        ensures
            modifies(self, s@, r@),
    {
        match self {
            Modifier::WarnColor => warn_color(s),
            Modifier::Bold => bold(s),
            Modifier::Underline => underline(s),
            Modifier::Percent => percent(s),
        }
    }
}

/// Applies the modifiers `ms` to `s`, first to last.
pub fn apply_chain(s: String, ms: &Vec<Modifier>) -> (r: String)
    ensures
        chain(ms@, s@, r@),
{
    let mut buf = s;
    let mut i: usize = 0;
    assert(ms@.take(0).len() == 0);
    while i < ms.len()
        invariant
            i <= ms@.len(),
            chain(ms@.take(i as int), s@, buf@),
        decreases ms@.len() - i,
    {
        let next = ms[i].apply(buf.as_str());
        proof {
            let t = ms@.take(i + 1);
            assert(t.drop_last() == ms@.take(i as int));
            assert(t.last() == ms@[i as int]);
            assert(chain(t.drop_last(), s@, buf@) && modifies(t.last(), buf@, next@));
            lemma_chain_step(t, s@, buf@, next@);
        }
        buf = next;
        i = i + 1;
    }
    assert(ms@.take(ms@.len() as int) == ms@);
    buf
}

/// The registry of modifiers by name.
pub open spec fn modifier_names() -> Map<Seq<char>, Modifier> {
    map![
        "warn_color"@ => Modifier::WarnColor,
        "bold"@ => Modifier::Bold,
        "underline"@ => Modifier::Underline,
        "percent"@ => Modifier::Percent,
    ]
}

/// The modifiers by name: `warn_color`, `bold`, `underline` and `percent`.
pub fn build_modifiers() -> (r: Table<Modifier>)
    ensures
        r@ == modifier_names(),
{
    let mut t = Table::new();
    t.insert(String::from_str("warn_color"), Modifier::WarnColor);
    t.insert(String::from_str("bold"), Modifier::Bold);
    t.insert(String::from_str("underline"), Modifier::Underline);
    t.insert(String::from_str("percent"), Modifier::Percent);
    assert(t@ =~= modifier_names());
    t
}

} // verus!
