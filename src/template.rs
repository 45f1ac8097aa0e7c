//! The template language and its parser.
//!
//! A template is literal text with three kinds of marks in it:
//! - `\c` stands for the character `c` itself;
//! - `[ name = builtin  other = "command" ]` is a directive section: `name`
//!   is bound to the value of the builtin, `other` to the shell command;
//! - `{ builtin :mod1 :mod2  $custom :mod }` is an expression section: each
//!   expression names a builtin, or a custom value after `$`, followed by
//!   modifiers, each after `:`.
//!
//! Identifiers are made of ASCII letters, digits and `_`. Whitespace inside
//! a section separates tokens and is not shown.
use vstd::prelude::*;
use crate::text::{char_string, slice_string};

verus! {

/// A declaration in a directive section.
#[derive(Debug)]
pub enum Directive {
    /// `name = builtin`: `name` is bound to the builtin's value.
    Environ { name: String, builtin: String },
    /// `name = "command"`: `name` stands for the output of the command.
    Custom { name: String, command: String },
}

/// A reference in an expression section, with its modifiers.
#[derive(Debug)]
pub struct Expression {
    /// Whether the name is a custom value (written after `$`) rather than a builtin.
    pub custom: bool,
    pub name: String,
    pub modifiers: Vec<String>,
}

/// A top-level part of a template.
#[derive(Debug)]
pub enum Item {
    Literal(String),
    Escape(char),
    Directives(Vec<Directive>),
    Expressions(Vec<Expression>),
}

/// Where a template is malformed.
#[derive(Debug)]
pub struct SyntaxError {
    /// Index of the offending character, counting characters from 0.
    pub offset: usize,
    /// Line of the offending character, from 1.
    pub line: usize,
    /// Column of the offending character, from 1.
    pub column: usize,
    /// The text from the offending character to the end of its line.
    pub found: String,
}

pub open spec fn is_special(c: char) -> bool {
    c == '\\' || c == '{' || c == '['
}

pub open spec fn is_space(c: char) -> bool {
    c == ' ' || c == '\t' || c == '\n' || c == '\r'
}

pub open spec fn is_ident_char(c: char) -> bool {
    ('a' <= c && c <= 'z') || ('A' <= c && c <= 'Z') || ('0' <= c && c <= '9') || c == '_'
}

pub open spec fn is_ident(s: Seq<char>) -> bool {
    s.len() > 0 && forall|i: int| 0 <= i < s.len() ==> is_ident_char(#[trigger] s[i])
}

pub open spec fn wf_directive(d: Directive) -> bool {
    match d {
        Directive::Environ { name, builtin } => is_ident(name@) && is_ident(builtin@),
        Directive::Custom { name, command } => is_ident(name@) && forall|i: int|
            0 <= i < command@.len() ==> #[trigger] command@[i] != '"',
    }
}

pub open spec fn wf_expression(e: Expression) -> bool {
    &&& is_ident(e.name@)
    &&& forall|i: int| 0 <= i < e.modifiers@.len() ==> is_ident(#[trigger] e.modifiers@[i]@)
}

/// A parsed item as the parser produces it: literal runs are non-empty and
/// free of marks, sections are non-empty and their names are identifiers.
pub open spec fn wf_item(item: Item) -> bool {
    match item {
        Item::Literal(t) => t@.len() > 0 && forall|i: int| 0 <= i < t@.len() ==> !is_special(#[trigger] t@[i]),
        Item::Escape(_) => true,
        Item::Directives(ds) => ds@.len() > 0 && forall|i: int| 0 <= i < ds@.len() ==> wf_directive(#[trigger] ds@[i]),
        Item::Expressions(es) => es@.len() > 0 && forall|i: int| 0 <= i < es@.len() ==> wf_expression(#[trigger] es@[i]),
    }
}

/// The text an item shows without evaluating anything: a literal's text or
/// an escaped character; nothing for a section.
pub open spec fn plain_output(item: Item) -> Seq<char> {
    match item {
        Item::Literal(t) => t@,
        Item::Escape(c) => seq![c],
        _ => Seq::empty(),
    }
}

pub open spec fn plain_outputs(items: Seq<Item>) -> Seq<char>
    decreases items.len(),
{
    if items.len() == 0 {
        Seq::empty()
    } else {
        plain_outputs(items.drop_last()) + plain_output(items.last())
    }
}

/// A template without sections.
pub open spec fn no_sections(s: Seq<char>) -> bool {
    forall|i: int| 0 <= i < s.len() ==> #[trigger] s[i] != '{' && s[i] != '['
}

/// Every escape mark is followed by a character.
pub open spec fn escapes_closed(s: Seq<char>) -> bool
    decreases s.len(),
{
    if s.len() == 0 {
        true
    } else if s[0] == '\\' {
        s.len() >= 2 && escapes_closed(s.skip(2))
    } else {
        escapes_closed(s.drop_first())
    }
}

/// `s` with each escape mark dropped and the character after it kept.
pub open spec fn unescape(s: Seq<char>) -> Seq<char>
    decreases s.len(),
{
    if s.len() == 0 {
        Seq::empty()
    } else if s[0] == '\\' && s.len() >= 2 {
        seq![s[1]] + unescape(s.skip(2))
    } else {
        seq![s[0]] + unescape(s.drop_first())
    }
}

/// Number of line breaks in `s`.
pub open spec fn line_breaks(s: Seq<char>) -> nat
    decreases s.len(),
{
    if s.len() == 0 {
        0
    } else {
        line_breaks(s.drop_last()) + if s.last() == '\n' { 1nat } else { 0nat }
    }
}

/// Number of characters after the last line break of `s`.
pub open spec fn line_tail(s: Seq<char>) -> nat
    decreases s.len(),
{
    if s.len() == 0 {
        0
    } else if s.last() == '\n' {
        0
    } else {
        line_tail(s.drop_last()) + 1
    }
}

/// A directive as a value.
pub enum DirectiveV {
    Environ(Seq<char>, Seq<char>),
    Custom(Seq<char>, Seq<char>),
}

/// An expression as a value.
pub struct ExpressionV {
    pub custom: bool,
    pub name: Seq<char>,
    pub modifiers: Seq<Seq<char>>,
}

/// An item as a value.
pub enum ItemV {
    Literal(Seq<char>),
    Escape(char),
    Directives(Seq<DirectiveV>),
    Expressions(Seq<ExpressionV>),
}

impl View for Directive {
    type V = DirectiveV;

    open spec fn view(&self) -> DirectiveV {
        match self {
            Directive::Environ { name, builtin } => DirectiveV::Environ(name@, builtin@),
            Directive::Custom { name, command } => DirectiveV::Custom(name@, command@),
        }
    }
}

impl View for Expression {
    type V = ExpressionV;

    open spec fn view(&self) -> ExpressionV {
        ExpressionV {
            custom: self.custom,
            name: self.name@,
            modifiers: modifiers_view(self.modifiers@),
        }
    }
}

impl View for Item {
    type V = ItemV;

    open spec fn view(&self) -> ItemV {
        match self {
            Item::Literal(t) => ItemV::Literal(t@),
            Item::Escape(c) => ItemV::Escape(*c),
            Item::Directives(ds) => ItemV::Directives(directives_view(ds@)),
            Item::Expressions(es) => ItemV::Expressions(expressions_view(es@)),
        }
    }
}

/// The modifier names as values.
pub open spec fn modifiers_view(ms: Seq<String>) -> Seq<Seq<char>> {
    ms.map_values(|m: String| m@)
}

/// The expressions as values.
pub open spec fn expressions_view(es: Seq<Expression>) -> Seq<ExpressionV> {
    es.map_values(|e: Expression| e@)
}

/// End of the run of whitespace that starts at `i`.
pub open spec fn space_end(s: Seq<char>, i: int) -> int
    decreases s.len() - i,
{
    if 0 <= i < s.len() && is_space(s[i]) {
        space_end(s, i + 1)
    } else {
        i
    }
}

/// End of the run of identifier characters that starts at `i`.
pub open spec fn ident_stop(s: Seq<char>, i: int) -> int
    decreases s.len() - i,
{
    if 0 <= i < s.len() && is_ident_char(s[i]) {
        ident_stop(s, i + 1)
    } else {
        i
    }
}

/// Index of the first `"` at or after `i`, or the length of `s`.
pub open spec fn quote_stop(s: Seq<char>, i: int) -> int
    decreases s.len() - i,
{
    if 0 <= i < s.len() && s[i] != '"' {
        quote_stop(s, i + 1)
    } else {
        i
    }
}

/// End of the run of unmarked characters that starts at `i`.
pub open spec fn literal_stop(s: Seq<char>, i: int) -> int
    decreases s.len() - i,
{
    if 0 <= i < s.len() && !is_special(s[i]) {
        literal_stop(s, i + 1)
    } else {
        i
    }
}

/// The directive `name = builtin` or `name = "command"` at `j`, and where it
/// ends; or the offset where it is malformed.
pub open spec fn directive_at(s: Seq<char>, j: int) -> Result<(DirectiveV, int), int> {
    let k = ident_stop(s, j);
    let e = space_end(s, k);
    let v = space_end(s, e + 1);
    if k == j {
        Err(j)
    } else if e >= s.len() || s[e] != '=' {
        Err(e)
    } else if v < s.len() && s[v] == '"' {
        let m = quote_stop(s, v + 1);
        if m >= s.len() {
            Err(v)
        } else {
            Ok((DirectiveV::Custom(s.subrange(j, k), s.subrange(v + 1, m)), m + 1))
        }
    } else {
        let k2 = ident_stop(s, v);
        if k2 == v {
            Err(v)
        } else {
            Ok((DirectiveV::Environ(s.subrange(j, k), s.subrange(v, k2)), k2))
        }
    }
}

/// The rest of a directive section from `j`, after the directives `done`:
/// all its directives and the end of its closing `]`.
pub open spec fn directives_from(s: Seq<char>, j: int, done: Seq<DirectiveV>) -> Result<(Seq<DirectiveV>, int), int>
    decreases s.len() - j,
{
    let p = space_end(s, j);
    if p < 0 || p >= s.len() {
        Err(p)
    } else if s[p] == ']' {
        if done.len() == 0 {
            Err(p)
        } else {
            Ok((done, p + 1))
        }
    } else {
        match directive_at(s, p) {
            Err(e) => Err(e),
            Ok((d, q)) => if j < q <= s.len() {
                directives_from(s, q, done.push(d))
            } else {
                Err(q)
            },
        }
    }
}

/// The modifiers `:name` from `j`, each followed by whitespace, after the
/// modifiers `done`, and where they end.
pub open spec fn modifiers_from(s: Seq<char>, j: int, done: Seq<Seq<char>>) -> Result<(Seq<Seq<char>>, int), int>
    decreases s.len() - j,
{
    if 0 <= j < s.len() && s[j] == ':' {
        let k = ident_stop(s, j + 1);
        let q = space_end(s, k);
        if k == j + 1 {
            Err(j + 1)
        } else if j < q <= s.len() {
            modifiers_from(s, q, done.push(s.subrange(j + 1, k)))
        } else {
            Err(q)
        }
    } else {
        Ok((done, j))
    }
}

/// The expression at `j`: a builtin name, or `$` and a custom name, then
/// its modifiers; and where it ends.
pub open spec fn expression_at(s: Seq<char>, j: int) -> Result<(ExpressionV, int), int> {
    let custom = 0 <= j < s.len() && s[j] == '$';
    let start = if custom { j + 1 } else { j };
    let k = ident_stop(s, start);
    if k == start {
        Err(start)
    } else {
        match modifiers_from(s, space_end(s, k), Seq::empty()) {
            Err(e) => Err(e),
            Ok((ms, q)) => Ok((ExpressionV { custom, name: s.subrange(start, k), modifiers: ms }, q)),
        }
    }
}

/// The rest of an expression section from `j` (past whitespace), after the
/// expressions `done`: all its expressions and the end of its closing `}`.
pub open spec fn expressions_from(s: Seq<char>, j: int, done: Seq<ExpressionV>) -> Result<(Seq<ExpressionV>, int), int>
    decreases s.len() - j,
{
    if j < 0 || j >= s.len() {
        Err(j)
    } else if s[j] == '}' {
        if done.len() == 0 {
            Err(j)
        } else {
            Ok((done, j + 1))
        }
    } else {
        match expression_at(s, j) {
            Err(e) => Err(e),
            Ok((x, q)) => if j < q <= s.len() {
                expressions_from(s, q, done.push(x))
            } else {
                Err(q)
            },
        }
    }
}

/// `rest` with the items `xs` in front, or the same error.
pub open spec fn prepend(xs: Seq<ItemV>, rest: Result<Seq<ItemV>, int>) -> Result<Seq<ItemV>, int> {
    match rest {
        Ok(v) => Ok(xs + v),
        Err(e) => Err(e),
    }
}

/// The items of `s` from `i` on, or the offset of the first malformed mark.
pub open spec fn items_from(s: Seq<char>, i: int) -> Result<Seq<ItemV>, int>
    decreases s.len() - i,
{
    if i < 0 || i >= s.len() {
        Ok(Seq::empty())
    } else if s[i] == '\\' {
        if i + 1 >= s.len() {
            Err(i)
        } else {
            prepend(seq![ItemV::Escape(s[i + 1])], items_from(s, i + 2))
        }
    } else if s[i] == '[' {
        match directives_from(s, i + 1, Seq::empty()) {
            Err(e) => Err(e),
            Ok((ds, q)) => if i < q <= s.len() {
                prepend(seq![ItemV::Directives(ds)], items_from(s, q))
            } else {
                Err(q)
            },
        }
    } else if s[i] == '{' {
        match expressions_from(s, space_end(s, i + 1), Seq::empty()) {
            Err(e) => Err(e),
            Ok((es, q)) => if i < q <= s.len() {
                prepend(seq![ItemV::Expressions(es)], items_from(s, q))
            } else {
                Err(q)
            },
        }
    } else {
        let j = literal_stop(s, i);
        if i < j <= s.len() {
            prepend(seq![ItemV::Literal(s.subrange(i, j))], items_from(s, j))
        } else {
            Err(j)
        }
    }
}

/// The items of template `s`, or the offset where it is malformed.
pub open spec fn template_of(s: Seq<char>) -> Result<Seq<ItemV>, int> {
    items_from(s, 0)
}

/// Index of the first line break at or after `i`, or the length of `s`.
pub open spec fn line_end(s: Seq<char>, i: int) -> int
    decreases s.len() - i,
{
    if 0 <= i < s.len() && s[i] != '\n' {
        line_end(s, i + 1)
    } else {
        i
    }
}

/// `e` describes the character at its offset in `s`: its line and column,
/// and the text from it to the end of its line.
pub open spec fn locates(s: Seq<char>, e: SyntaxError) -> bool {
    &&& e.offset <= s.len()
    &&& e.line == line_breaks(s.take(e.offset as int)) + 1
    &&& e.column == line_tail(s.take(e.offset as int)) + 1
    &&& e.found@ == s.subrange(e.offset as int, line_end(s, e.offset as int))
}

/// The error for the character at `offset` of `s`.
fn syntax_error(s: &str, offset: usize) -> (r: SyntaxError)
    requires
        offset <= s@.len() < usize::MAX,
    ensures
        r.offset == offset,
        r.line == line_breaks(s@.take(offset as int)) + 1,
        r.column == line_tail(s@.take(offset as int)) + 1,
        locates(s@, r),
{
    let mut line: usize = 1;
    let mut column: usize = 1;
    let mut i: usize = 0;
    while i < offset
        invariant
            offset <= s@.len() < usize::MAX,
            i <= offset,
            line == line_breaks(s@.take(i as int)) + 1,
            column == line_tail(s@.take(i as int)) + 1,
            line <= i + 1,
            column <= i + 1,
        decreases offset - i,
    {
        let ghost t = s@.take(i + 1);
        assert(t.drop_last() == s@.take(i as int));
        if s.get_char(i) == '\n' {
            line = line + 1;
            column = 1;
        } else {
            column = column + 1;
        }
        i = i + 1;
    }
    let n = s.unicode_len();
    let mut end: usize = offset;
    while end < n && s.get_char(end) != '\n'
        invariant
            offset <= end <= n == s@.len(),
            line_end(s@, offset as int) == line_end(s@, end as int),
        decreases n - end,
    {
        end = end + 1;
    }
    SyntaxError { offset, line, column, found: slice_string(s, offset, end) }
}

fn space_at(s: &str, i: usize) -> (r: bool)
    requires
        i < s@.len(),
    ensures
        r == is_space(s@[i as int]),
{
    let c = s.get_char(i);
    c == ' ' || c == '\t' || c == '\n' || c == '\r'
}

fn ident_char_at(s: &str, i: usize) -> (r: bool)
    requires
        i < s@.len(),
    ensures
        r == is_ident_char(s@[i as int]),
{
    let c = s.get_char(i);
    ('a' <= c && c <= 'z') || ('A' <= c && c <= 'Z') || ('0' <= c && c <= '9') || c == '_'
}

/// The end of the whitespace run that starts at `i`.
fn skip_space(s: &str, i: usize) -> (j: usize)
    requires
        i <= s@.len(),
    ensures
        i <= j <= s@.len(),
        j < s@.len() ==> !is_space(s@[j as int]),
        j == space_end(s@, i as int),
{
    let n = s.unicode_len();
    let mut j = i;
    while j < n && space_at(s, j)
        invariant
            i <= j <= n == s@.len(),
            space_end(s@, i as int) == space_end(s@, j as int),
        decreases n - j,
    {
        j = j + 1;
    }
    j
}

/// The end of the identifier characters that start at `i`.
fn ident_end(s: &str, i: usize) -> (j: usize)
    requires
        i <= s@.len(),
    ensures
        i <= j <= s@.len(),
        forall|k: int| i <= k < j ==> is_ident_char(#[trigger] s@[k]),
        j < s@.len() ==> !is_ident_char(s@[j as int]),
        j == ident_stop(s@, i as int),
{
    let n = s.unicode_len();
    let mut j = i;
    while j < n && ident_char_at(s, j)
        invariant
            i <= j <= n == s@.len(),
            ident_stop(s@, i as int) == ident_stop(s@, j as int),
            forall|k: int| i <= k < j ==> is_ident_char(#[trigger] s@[k]),
        decreases n - j,
    {
        j = j + 1;
    }
    j
}

/// The identifier that starts at `i`, and where it ends.
fn read_ident(s: &str, i: usize) -> (r: Result<(String, usize), SyntaxError>)
    requires
        i <= s@.len() < usize::MAX,
    ensures
        r.is_ok() ==> is_ident(r.unwrap().0@) && i < r.unwrap().1 <= s@.len(),
        r.is_ok() ==> r.unwrap().1 == ident_stop(s@, i as int) && r.unwrap().0@ == s@.subrange(
            i as int,
            r.unwrap().1 as int,
        ),
        r.is_err() ==> (r->Err_0).offset == i && ident_stop(s@, i as int) == i && locates(s@, r->Err_0),
{
    let j = ident_end(s, i);
    if j == i {
        return Err(syntax_error(s, i));
    }
    let name = slice_string(s, i, j);
    assert forall|k: int| 0 <= k < name@.len() implies is_ident_char(#[trigger] name@[k]) by {
        assert(name@[k] == s@[i + k]);
    }
    Ok((name, j))
}

/// The directives as values.
pub open spec fn directives_view(ds: Seq<Directive>) -> Seq<DirectiveV> {
    ds.map_values(|d: Directive| d@)
}

/// The directive section that opens at `i`, and where it ends.
fn parse_directives(s: &str, i: usize) -> (r: Result<(Vec<Directive>, usize), SyntaxError>)
    requires
        i < s@.len() < usize::MAX,
    ensures
        r.is_ok() ==> i < r.unwrap().1 <= s@.len() && wf_item(Item::Directives(r.unwrap().0)),
        r.is_ok() ==> directives_from(s@, i + 1, Seq::empty()) == Ok::<_, int>(
            (directives_view(r.unwrap().0@), r.unwrap().1 as int),
        ),
        r.is_err() ==> locates(s@, r->Err_0),
        r.is_err() ==> directives_from(s@, i + 1, Seq::empty()) == Err::<(Seq<DirectiveV>, int), int>(
            (r->Err_0).offset as int,
        ),
{
    let n = s.unicode_len();
    let mut ds: Vec<Directive> = Vec::new();
    let mut j: usize = i + 1;
    assert(directives_view(ds@) =~= Seq::<DirectiveV>::empty());
    loop
        invariant
            n == s@.len() < usize::MAX,
            i < j <= n,
            forall|k: int| 0 <= k < ds@.len() ==> wf_directive(#[trigger] ds@[k]),
            directives_from(s@, i + 1, Seq::empty()) == directives_from(s@, j as int, directives_view(ds@)),
        decreases n - j,
    {
        let ghost j0 = j as int;
        let ghost before = ds@;
        j = skip_space(s, j);
        if j == n {
            return Err(syntax_error(s, j));
        }
        if s.get_char(j) == ']' {
            if ds.len() == 0 {
                return Err(syntax_error(s, j));
            }
            return Ok((ds, j + 1));
        }
        let ghost p = j as int;
        let (name, k) = read_ident(s, j)?;
        j = skip_space(s, k);
        if j == n || s.get_char(j) != '=' {
            return Err(syntax_error(s, j));
        }
        j = skip_space(s, j + 1);
        if j < n && s.get_char(j) == '"' {
            let mut m: usize = j + 1;
            while m < n && s.get_char(m) != '"'
                invariant
                    j < m <= n == s@.len() < usize::MAX,
                    forall|t: int| j < t < m ==> #[trigger] s@[t] != '"',
                    quote_stop(s@, j + 1) == quote_stop(s@, m as int),
                decreases n - m,
            {
                m = m + 1;
            }
            if m == n {
                return Err(syntax_error(s, j));
            }
            let command = slice_string(s, j + 1, m);
            assert forall|t: int| 0 <= t < command@.len() implies #[trigger] command@[t] != '"' by {
                assert(command@[t] == s@[j + 1 + t]);
            }
            let d = Directive::Custom { name, command };
            assert(wf_directive(d));
            assert(directive_at(s@, p) == Ok::<_, int>((d@, m + 1)));
            ds.push(d);
            j = m + 1;
        } else {
            let (builtin, k) = read_ident(s, j)?;
            let d = Directive::Environ { name, builtin };
            assert(wf_directive(d));
            assert(directive_at(s@, p) == Ok::<_, int>((d@, k as int)));
            ds.push(d);
            j = k;
        }
        assert(directives_view(ds@) =~= directives_view(before).push(ds@.last()@));
    }
}

/// The expression section that opens at `i`, and where it ends.
fn parse_expressions(s: &str, i: usize) -> (r: Result<(Vec<Expression>, usize), SyntaxError>)
    requires
        i < s@.len() < usize::MAX,
    ensures
        r.is_ok() ==> i < r.unwrap().1 <= s@.len() && wf_item(Item::Expressions(r.unwrap().0)),
        r.is_ok() ==> expressions_from(s@, space_end(s@, i + 1), Seq::empty()) == Ok::<_, int>(
            (expressions_view(r.unwrap().0@), r.unwrap().1 as int),
        ),
        r.is_err() ==> locates(s@, r->Err_0),
        r.is_err() ==> expressions_from(s@, space_end(s@, i + 1), Seq::empty()) == Err::<
            (Seq<ExpressionV>, int),
            int,
        >((r->Err_0).offset as int),
{
    let n = s.unicode_len();
    let mut es: Vec<Expression> = Vec::new();
    let mut j: usize = skip_space(s, i + 1);
    assert(expressions_view(es@) =~= Seq::<ExpressionV>::empty());
    loop
        invariant
            n == s@.len() < usize::MAX,
            i < j <= n,
            forall|k: int| 0 <= k < es@.len() ==> wf_expression(#[trigger] es@[k]),
            expressions_from(s@, space_end(s@, i + 1), Seq::empty()) == expressions_from(
                s@,
                j as int,
                expressions_view(es@),
            ),
        decreases n - j,
    {
        let ghost j0 = j as int;
        let ghost before = es@;
        if j == n {
            return Err(syntax_error(s, j));
        }
        if s.get_char(j) == '}' {
            if es.len() == 0 {
                return Err(syntax_error(s, j));
            }
            return Ok((es, j + 1));
        }
        let custom = s.get_char(j) == '$';
        let start = if custom { j + 1 } else { j };
        let (name, k) = read_ident(s, start)?;
        let mut modifiers: Vec<String> = Vec::new();
        j = skip_space(s, k);
        let ghost m0 = j as int;
        assert(modifiers_view(modifiers@) =~= Seq::<Seq<char>>::empty());
        while j < n && s.get_char(j) == ':'
            invariant
                n == s@.len() < usize::MAX,
                i < j <= n,
                j0 < j,
                0 <= j0 < n,
                s@[j0] != '}',
                custom == (s@[j0] == '$'),
                start == if custom { j0 + 1 } else { j0 },
                k == ident_stop(s@, start as int),
                start < k,
                m0 == space_end(s@, k as int),
                expressions_from(s@, space_end(s@, i + 1), Seq::empty()) == expressions_from(
                    s@,
                    j0,
                    expressions_view(es@),
                ),
                forall|t: int| 0 <= t < modifiers@.len() ==> is_ident(#[trigger] modifiers@[t]@),
                modifiers_from(s@, m0, Seq::empty()) == modifiers_from(s@, j as int, modifiers_view(modifiers@)),
            decreases n - j,
        {
            let ghost jj = j as int;
            let ghost mb = modifiers@;
            let (m, k2) = read_ident(s, j + 1)?;
            modifiers.push(m);
            j = skip_space(s, k2);
            assert(modifiers_view(modifiers@) =~= modifiers_view(mb).push(s@.subrange(jj + 1, k2 as int)));
        }
        let e = Expression { custom, name, modifiers };
        assert(wf_expression(e));
        assert(expression_at(s@, j0) == Ok::<_, int>((e@, j as int)));
        es.push(e);
        assert(expressions_view(es@) =~= expressions_view(before).push(e@));
    }
}

proof fn lemma_unescape_plain(s: Seq<char>, i: int, j: int)
    requires
        0 <= i <= j <= s.len(),
        forall|k: int| i <= k < j ==> #[trigger] s[k] != '\\',
    ensures
        unescape(s.skip(i)) == s.subrange(i, j) + unescape(s.skip(j)),
        escapes_closed(s.skip(i)) == escapes_closed(s.skip(j)),
    decreases j - i,
{
    if i < j {
        lemma_unescape_plain(s, i + 1, j);
        let t = s.skip(i);
        assert(t[0] == s[i]);
        assert(t.drop_first() == s.skip(i + 1));
        assert(s.subrange(i, j) == seq![s[i]] + s.subrange(i + 1, j));
    } else {
        assert(s.subrange(i, j) == Seq::<char>::empty());
    }
}

/// The items as values.
pub open spec fn items_view(items: Seq<Item>) -> Seq<ItemV> {
    items.map_values(|x: Item| x@)
}

proof fn lemma_prepend_twice(a: Seq<ItemV>, b: Seq<ItemV>, r: Result<Seq<ItemV>, int>)
    ensures
        prepend(a, prepend(b, r)) == prepend(a + b, r),
{
    if let Ok(v) = r {
        assert(a + (b + v) =~= (a + b) + v);
    }
}

/// Parser of templates.
pub struct MotdTemplateParser;

impl MotdTemplateParser {
    /// Parses a template into its items, in order. A template without
    /// sections always parses unless it ends in a lone escape mark, and
    /// then shows its text with the escapes resolved.
    pub fn parse(s: &str) -> (r: Result<Vec<Item>, SyntaxError>)
        requires
            s@.len() < usize::MAX,
        ensures
            r.is_ok() ==> template_of(s@) == Ok::<_, int>(items_view(r.unwrap()@)),
            r.is_err() ==> template_of(s@) == Err::<Seq<ItemV>, int>((r->Err_0).offset as int),
            r.is_ok() ==> forall|k: int| 0 <= k < r.unwrap()@.len() ==> wf_item(#[trigger] r.unwrap()@[k]),
            r.is_err() ==> locates(s@, r->Err_0),
            no_sections(s@) ==> (r.is_ok() == escapes_closed(s@)),
            no_sections(s@) && r.is_ok() ==> plain_outputs(r.unwrap()@) == unescape(s@),
    {
        let n = s.unicode_len();
        let mut items: Vec<Item> = Vec::new();
        let mut i: usize = 0;
        assert(s@.skip(0) == s@);
        assert(items_view(items@) =~= Seq::<ItemV>::empty());
        assert(prepend(Seq::empty(), items_from(s@, 0)) == items_from(s@, 0)) by {
            if let Ok(v) = items_from(s@, 0) {
                assert(Seq::<ItemV>::empty() + v =~= v);
            }
        }
        while i < n
            invariant
                n == s@.len() < usize::MAX,
                i <= n,
                forall|k: int| 0 <= k < items@.len() ==> wf_item(#[trigger] items@[k]),
                no_sections(s@) ==> plain_outputs(items@) + unescape(s@.skip(i as int)) == unescape(s@),
                no_sections(s@) ==> escapes_closed(s@.skip(i as int)) == escapes_closed(s@),
                template_of(s@) == prepend(items_view(items@), items_from(s@, i as int)),
            decreases n - i,
        {
            let c = s.get_char(i);
            let ghost before = items@;
            let ghost i0 = i as int;
            let ghost rest = s@.skip(i as int);
            assert(rest[0] == c);
            if c == '\\' {
                if i + 1 == n {
                    assert(rest.len() == 1);
                    return Err(syntax_error(s, i));
                }
                let e = s.get_char(i + 1);
                items.push(Item::Escape(e));
                proof {
                    assert(items_view(items@) =~= items_view(before) + seq![ItemV::Escape(e)]);
                    lemma_prepend_twice(items_view(before), seq![ItemV::Escape(e)], items_from(s@, i0 + 2));
                    assert(rest[1] == e);
                    assert(rest.skip(2) == s@.skip(i + 2));
                    assert(items@.drop_last() == before);
                    assert(plain_outputs(items@) == plain_outputs(before) + seq![e]);
                    assert(plain_outputs(before) + (seq![e] + unescape(rest.skip(2))) == plain_outputs(
                        items@,
                    ) + unescape(s@.skip(i + 2)));
                }
                i = i + 2;
            } else if c == '[' {
                let (ds, j) = parse_directives(s, i)?;
                let it = Item::Directives(ds);
                proof {
                    lemma_prepend_twice(items_view(before), seq![it@], items_from(s@, j as int));
                }
                items.push(it);
                assert(items_view(items@) =~= items_view(before) + seq![it@]);
                i = j;
            } else if c == '{' {
                let (es, j) = parse_expressions(s, i)?;
                let it = Item::Expressions(es);
                proof {
                    lemma_prepend_twice(items_view(before), seq![it@], items_from(s@, j as int));
                }
                items.push(it);
                assert(items_view(items@) =~= items_view(before) + seq![it@]);
                i = j;
            } else {
                let mut j: usize = i + 1;
                while j < n && !(s.get_char(j) == '\\' || s.get_char(j) == '{' || s.get_char(j) == '[')
                    invariant
                        i < j <= n == s@.len() < usize::MAX,
                        forall|k: int| i <= k < j ==> !is_special(#[trigger] s@[k]),
                        literal_stop(s@, i as int) == literal_stop(s@, j as int),
                    decreases n - j,
                {
                    j = j + 1;
                }
                let t = slice_string(s, i, j);
                assert forall|k: int| 0 <= k < t@.len() implies !is_special(#[trigger] t@[k]) by {
                    assert(t@[k] == s@[i + k]);
                }
                let ghost tv = ItemV::Literal(t@);
                items.push(Item::Literal(t));
                proof {
                    assert(items_view(items@) =~= items_view(before) + seq![tv]);
                    lemma_prepend_twice(items_view(before), seq![tv], items_from(s@, j as int));
                    assert(items@.drop_last() == before);
                    lemma_unescape_plain(s@, i as int, j as int);
                    assert(plain_outputs(before) + (t@ + unescape(s@.skip(j as int))) == plain_outputs(
                        items@,
                    ) + unescape(s@.skip(j as int)));
                }
                i = j;
            }
        }
        proof {
            assert(items_view(items@) + Seq::<ItemV>::empty() =~= items_view(items@));
            assert(s@.skip(n as int).len() == 0);
            assert(plain_outputs(items@) + Seq::<char>::empty() == plain_outputs(items@));
        }
        Ok(items)
    }
}

} // verus!
