use vstd::prelude::*;

verus! {

// ------------------------------------------------------------------
// Declarative command sets
// ------------------------------------------------------------------

/// The declared type of one positional command argument.
#[derive(Clone, Copy, Debug, PartialEq, Eq, Structural)]
pub enum FieldKind {
    Integer,
    Text,
}

/// The declared argument shape of one command identity: either a fixed
/// list of whitespace-delimited positional fields, or the whole rest of
/// the line as a single textual field.
#[derive(Clone, Debug, PartialEq)]
pub enum ArgShape {
    Positional(Vec<FieldKind>),
    RestOfLine,
}

/// The spec-level value of an `ArgShape`.
pub enum SpecArgShape {
    Positional(Seq<FieldKind>),
    RestOfLine,
}

impl View for ArgShape {
    type V = SpecArgShape;

    open spec fn view(&self) -> SpecArgShape {
        match self {
            ArgShape::Positional(kinds) => SpecArgShape::Positional(kinds@),
            ArgShape::RestOfLine => SpecArgShape::RestOfLine,
        }
    }
}

/// One declared command identity with its argument shape.
#[derive(Clone, Debug, PartialEq)]
pub struct CommandDecl {
    /// The command name, matched case-sensitively after the prefix.
    pub name: String,

    /// How the remainder of the line is parsed into arguments.
    pub shape: ArgShape,
}

/// The spec-level value of a `CommandDecl`.
pub struct SpecCommandDecl {
    pub name: Seq<char>,
    pub shape: SpecArgShape,
}

impl View for CommandDecl {
    type V = SpecCommandDecl;

    open spec fn view(&self) -> SpecCommandDecl {
        SpecCommandDecl { name: self.name@, shape: self.shape@ }
    }
}

/// The declarative table of command identities a caller supplies, plus the
/// configured handling of command text without an addressee suffix.
#[derive(Clone, Debug, PartialEq)]
pub struct CommandTable {
    /// The declared command identities; the first name match wins.
    pub decls: Vec<CommandDecl>,

    /// Whether command text without an `@`-suffix is accepted as addressed
    /// to this bot; with `false`, such text is rejected as addressed to
    /// some other recipient.
    pub accept_unaddressed: bool,
}

/// The spec-level value of a `CommandTable`.
pub struct SpecCommandTable {
    pub decls: Seq<SpecCommandDecl>,
    pub accept_unaddressed: bool,
}

impl View for CommandTable {
    type V = SpecCommandTable;

    open spec fn view(&self) -> SpecCommandTable {
        SpecCommandTable {
            decls: Seq::new(self.decls@.len(), |i: int| self.decls@[i]@),
            accept_unaddressed: self.accept_unaddressed,
        }
    }
}

// ------------------------------------------------------------------
// Parsed command values and parse failures
// ------------------------------------------------------------------

/// One parsed argument field.
#[derive(Clone, Debug, PartialEq)]
pub enum FieldValue {
    Integer(i64),
    Text(String),
}

/// The spec-level value of a `FieldValue`.
pub enum SpecFieldValue {
    Integer(i64),
    Text(Seq<char>),
}

impl View for FieldValue {
    type V = SpecFieldValue;

    open spec fn view(&self) -> SpecFieldValue {
        match self {
            FieldValue::Integer(v) => SpecFieldValue::Integer(*v),
            FieldValue::Text(t) => SpecFieldValue::Text(t@),
        }
    }
}

/// A successfully parsed command: the matched identity and its arguments
/// in declaration order.
#[derive(Clone, Debug, PartialEq)]
pub struct CommandValue {
    /// The matched command identity.
    pub name: String,

    /// The parsed argument fields, in order.
    pub args: Vec<FieldValue>,
}

/// The spec-level value of a `CommandValue`.
pub struct SpecCommandValue {
    pub name: Seq<char>,
    pub args: Seq<SpecFieldValue>,
}

impl View for CommandValue {
    type V = SpecCommandValue;

    open spec fn view(&self) -> SpecCommandValue {
        SpecCommandValue { name: self.name@, args: Seq::new(self.args@.len(), |i: int| self.args@[i]@) }
    }
}

/// Why a piece of text failed to parse as a command for this bot.
#[derive(Clone, Copy, Debug, PartialEq, Eq, Structural)]
pub enum ParseError {
    /// The text does not begin with the command prefix: it is ordinary
    /// text, not a malformed command.
    NotACommand,
    /// The name after the prefix matches no declared command identity.
    UnknownCommand,
    /// The `@`-suffix names some other recipient (or is missing while the
    /// configuration demands one).
    WrongRecipient,
    /// The argument count does not match the declared shape.
    WrongArity { expected: usize, got: usize },
    /// An argument token failed its declared field conversion.
    InvalidArgument { index: usize },
}

// ------------------------------------------------------------------
// Character classes and scanning
// ------------------------------------------------------------------

/// Whitespace, for token delimiting.
pub open spec fn is_ws(c: char) -> bool {
    c == ' ' || c == '\t' || c == '\n' || c == '\r'
}

/// A decimal digit.
pub open spec fn is_digit(c: char) -> bool {
    '0' <= c && c <= '9'
}

/// ASCII lower-casing of one character.
pub open spec fn lower(c: char) -> char {
    if 'A' <= c && c <= 'Z' {
        ((c as u8) + 32) as char
    } else {
        c
    }
}

/// Case-insensitive (ASCII) equality of two character sequences.
pub open spec fn eq_ignore_case(a: Seq<char>, b: Seq<char>) -> bool {
    a.len() == b.len() && forall|i: int| 0 <= i < a.len() ==> lower(a[i]) == lower(b[i])
}

/// The first position at or after `i` that ends a command name: whitespace,
/// an `@`, or the end of the text.
pub open spec fn name_end(s: Seq<char>, i: int) -> int
    decreases s.len() - i
        when 0 <= i <= s.len()
{
    if i == s.len() {
        i
    } else if is_ws(s[i]) || s[i] == '@' {
        i
    } else {
        name_end(s, i + 1)
    }
}

/// The first position at or after `i` holding whitespace, or the end.
pub open spec fn token_end(s: Seq<char>, i: int) -> int
    decreases s.len() - i
        when 0 <= i <= s.len()
{
    if i == s.len() {
        i
    } else if is_ws(s[i]) {
        i
    } else {
        token_end(s, i + 1)
    }
}

/// The first position at or after `i` holding non-whitespace, or the end.
pub open spec fn skip_ws(s: Seq<char>, i: int) -> int
    decreases s.len() - i
        when 0 <= i <= s.len()
{
    if i == s.len() {
        i
    } else if is_ws(s[i]) {
        skip_ws(s, i + 1)
    } else {
        i
    }
}

pub proof fn lemma_name_end(s: Seq<char>, i: int)
    requires
        0 <= i <= s.len(),
    ensures
        i <= name_end(s, i) <= s.len(),
        name_end(s, i) < s.len() ==> (is_ws(s[name_end(s, i)]) || s[name_end(s, i)] == '@'),
        forall|k: int| i <= k < name_end(s, i) ==> !is_ws(s[k]) && s[k] != '@',
    decreases s.len() - i,
{
    if i < s.len() && !is_ws(s[i]) && s[i] != '@' {
        lemma_name_end(s, i + 1);
    }
}

pub proof fn lemma_token_end(s: Seq<char>, i: int)
    requires
        0 <= i <= s.len(),
    ensures
        i <= token_end(s, i) <= s.len(),
        token_end(s, i) < s.len() ==> is_ws(s[token_end(s, i)]),
        forall|k: int| i <= k < token_end(s, i) ==> !is_ws(s[k]),
    decreases s.len() - i,
{
    if i < s.len() && !is_ws(s[i]) {
        lemma_token_end(s, i + 1);
    }
}

pub proof fn lemma_skip_ws(s: Seq<char>, i: int)
    requires
        0 <= i <= s.len(),
    ensures
        i <= skip_ws(s, i) <= s.len(),
        skip_ws(s, i) < s.len() ==> !is_ws(s[skip_ws(s, i)]),
        forall|k: int| i <= k < skip_ws(s, i) ==> is_ws(s[k]),
    decreases s.len() - i,
{
    if i < s.len() && is_ws(s[i]) {
        lemma_skip_ws(s, i + 1);
    }
}

/// The whitespace-delimited tokens of `s` from position `i` on.
pub open spec fn spec_tokens(s: Seq<char>, i: int) -> Seq<Seq<char>>
    decreases s.len() - i
        when 0 <= i <= s.len()
        via spec_tokens_decreases
{
    let j = skip_ws(s, i);
    if j == s.len() {
        Seq::empty()
    } else {
        seq![s.subrange(j, token_end(s, j))] + spec_tokens(s, token_end(s, j))
    }
}

#[via_fn]
proof fn spec_tokens_decreases(s: Seq<char>, i: int) {
    lemma_skip_ws(s, i);
    let j = skip_ws(s, i);
    if j < s.len() {
        lemma_token_end(s, j);
    }
}

// ------------------------------------------------------------------
// Integer fields
// ------------------------------------------------------------------

/// The value of a sequence of decimal digits, most significant first.
pub open spec fn digits_value(s: Seq<char>) -> nat
    decreases s.len(),
{
    if s.len() == 0 {
        0
    } else {
        digits_value(s.drop_last()) * 10 + ((s.last() as int) - ('0' as int)) as nat
    }
}

pub open spec fn all_digits(s: Seq<char>) -> bool {
    forall|i: int| 0 <= i < s.len() ==> is_digit(s[i])
}

/// A decimal `i64`: an optional leading minus sign, then one or more
/// digits, within the type's range.
pub open spec fn spec_parse_i64(s: Seq<char>) -> Option<i64> {
    if s.len() == 0 {
        None
    } else if s[0] == '-' {
        let ds = s.drop_first();
        if ds.len() == 0 || !all_digits(ds) {
            None
        } else if digits_value(ds) <= 0x8000_0000_0000_0000 {
            Some((-(digits_value(ds) as int)) as i64)
        } else {
            None
        }
    } else {
        if !all_digits(s) {
            None
        } else if digits_value(s) <= 0x7fff_ffff_ffff_ffff {
            Some(digits_value(s) as i64)
        } else {
            None
        }
    }
}

/// One token converted to its declared field type.
pub open spec fn spec_field(tok: Seq<char>, kind: FieldKind) -> Option<SpecFieldValue> {
    match kind {
        FieldKind::Integer => match spec_parse_i64(tok) {
            Some(v) => Some(SpecFieldValue::Integer(v)),
            None => None,
        },
        FieldKind::Text => Some(SpecFieldValue::Text(tok)),
    }
}

/// All tokens converted in order; on the first failing token, its index.
pub open spec fn spec_convert(toks: Seq<Seq<char>>, kinds: Seq<FieldKind>) -> Result<
    Seq<SpecFieldValue>,
    int,
>
    decreases toks.len()
        when toks.len() == kinds.len()
{
    if toks.len() == 0 {
        Ok(Seq::empty())
    } else {
        match spec_field(toks[0], kinds[0]) {
            None => Err(0),
            Some(v) => match spec_convert(toks.drop_first(), kinds.drop_first()) {
                Ok(rest) => Ok(seq![v] + rest),
                Err(i) => Err(i + 1),
            },
        }
    }
}

pub proof fn lemma_convert(toks: Seq<Seq<char>>, kinds: Seq<FieldKind>)
    requires
        toks.len() == kinds.len(),
    ensures
        match spec_convert(toks, kinds) {
            Ok(args) => args.len() == toks.len() && forall|j: int|
                0 <= j < toks.len() ==> spec_field(toks[j], kinds[j]) == Some(args[j]),
            Err(i) => 0 <= i < toks.len() && spec_field(toks[i], kinds[i]) is None && forall|
                j: int,
            | 0 <= j < i ==> spec_field(toks[j], kinds[j]) is Some,
        },
    decreases toks.len(),
{
    if toks.len() > 0 {
        lemma_convert(toks.drop_first(), kinds.drop_first());
        if let Some(v) = spec_field(toks[0], kinds[0]) {
            match spec_convert(toks.drop_first(), kinds.drop_first()) {
                Ok(rest) => {
                    let args = seq![v] + rest;
                    assert forall|j: int| 0 <= j < toks.len() implies spec_field(
                        toks[j],
                        kinds[j],
                    ) == Some(args[j]) by {
                        if j > 0 {
                            assert(toks.drop_first()[j - 1] == toks[j]);
                            assert(kinds.drop_first()[j - 1] == kinds[j]);
                            assert(args[j] == rest[j - 1]);
                        }
                    }
                },
                Err(i) => {
                    assert(toks.drop_first()[i] == toks[i + 1]);
                    assert(kinds.drop_first()[i] == kinds[i + 1]);
                    assert forall|j: int| 0 <= j < i + 1 implies spec_field(
                        toks[j],
                        kinds[j],
                    ) is Some by {
                        if j > 0 {
                            assert(toks.drop_first()[j - 1] == toks[j]);
                            assert(kinds.drop_first()[j - 1] == kinds[j]);
                        }
                    }
                },
            }
        }
    }
}

// ------------------------------------------------------------------
// Command lookup
// ------------------------------------------------------------------

/// The first declared identity whose name equals `name` exactly.
pub open spec fn spec_lookup(decls: Seq<SpecCommandDecl>, name: Seq<char>) -> Option<
    SpecCommandDecl,
>
    decreases decls.len(),
{
    if decls.len() == 0 {
        None
    } else if decls[0].name == name {
        Some(decls[0])
    } else {
        spec_lookup(decls.drop_first(), name)
    }
}

// ------------------------------------------------------------------
// The grammar
// ------------------------------------------------------------------

/// The arguments of one command parsed from `text` at `from` on, per the
/// declared shape, paired with the matched `name`.
pub open spec fn spec_parse_args(
    shape: SpecArgShape,
    name: Seq<char>,
    text: Seq<char>,
    from: int,
) -> Result<SpecCommandValue, ParseError>
    recommends
        0 <= from <= text.len(),
{
    let rest_start = skip_ws(text, from);
    match shape {
        SpecArgShape::RestOfLine => Ok(
            SpecCommandValue {
                name,
                args: seq![
                    SpecFieldValue::Text(text.subrange(rest_start, text.len() as int)),
                ],
            },
        ),
        SpecArgShape::Positional(kinds) => {
            let toks = spec_tokens(text, rest_start);
            if toks.len() != kinds.len() {
                Err(
                    ParseError::WrongArity {
                        expected: kinds.len() as usize,
                        got: toks.len() as usize,
                    },
                )
            } else {
                match spec_convert(toks, kinds) {
                    Ok(args) => Ok(SpecCommandValue { name, args }),
                    Err(i) => Err(ParseError::InvalidArgument { index: i as usize }),
                }
            }
        },
    }
}

/// The command grammar, applied in order: the `/` prefix (rule one), the
/// command name matched against the declared set (rule two), the optional
/// `@`-addressee checked against the bot identity (rule three), and the
/// declared argument shape (rule four). The first failing rule decides the
/// error.
pub open spec fn spec_parse(
    table: SpecCommandTable,
    text: Seq<char>,
    bot_name: Seq<char>,
) -> Result<SpecCommandValue, ParseError> {
    if text.len() == 0 || text[0] != '/' {
        Err(ParseError::NotACommand)
    } else {
        let ne = name_end(text, 1);
        let name = text.subrange(1, ne);
        match spec_lookup(table.decls, name) {
            None => Err(ParseError::UnknownCommand),
            Some(decl) => {
                let has_mention = ne < text.len() && text[ne] == '@';
                if has_mention {
                    let me = token_end(text, ne + 1);
                    if !eq_ignore_case(text.subrange(ne + 1, me), bot_name) {
                        Err(ParseError::WrongRecipient)
                    } else {
                        spec_parse_args(decl.shape, name, text, me)
                    }
                } else if !table.accept_unaddressed {
                    Err(ParseError::WrongRecipient)
                } else {
                    spec_parse_args(decl.shape, name, text, ne)
                }
            },
        }
    }
}

/// Whether an executable parse result carries exactly the spec-level
/// result.
pub open spec fn result_matches(
    r: Result<CommandValue, ParseError>,
    s: Result<SpecCommandValue, ParseError>,
) -> bool {
    match (r, s) {
        (Ok(v), Ok(sv)) => v@ == sv,
        (Err(e), Err(se)) => e == se,
        _ => false,
    }
}

// ------------------------------------------------------------------
// Executable scanning
// ------------------------------------------------------------------

fn ws_char(c: char) -> (r: bool)
    ensures
        r == is_ws(c),
{
    c == ' ' || c == '\t' || c == '\n' || c == '\r'
}

fn lower_char(c: char) -> (r: char)
    ensures
        r == lower(c),
{
    let u = c as u32;
    if 65 <= u && u <= 90 {
        ((c as u8) + 32) as char
    } else {
        c
    }
}

fn scan_name_end(text: &str, i: usize, n: usize) -> (r: usize)
    requires
        n == text@.len(),
        i <= n,
    ensures
        r as int == name_end(text@, i as int),
        i <= r <= n,
{
    let mut j: usize = i;
    loop
        invariant
            i <= j <= n,
            n == text@.len(),
            name_end(text@, i as int) == name_end(text@, j as int),
        ensures
            j as int == name_end(text@, i as int),
            i <= j <= n,
        decreases n - j,
    {
        if j == n {
            proof {
                assert(name_end(text@, j as int) == j as int);
            }
            break;
        }
        let c = text.get_char(j);
        if ws_char(c) || c == '@' {
            proof {
                assert(name_end(text@, j as int) == j as int);
            }
            break;
        }
        proof {
            assert(name_end(text@, j as int) == name_end(text@, j + 1));
        }
        j = j + 1;
    }
    j
}

fn scan_token_end(text: &str, i: usize, n: usize) -> (r: usize)
    requires
        n == text@.len(),
        i <= n,
    ensures
        r as int == token_end(text@, i as int),
        i <= r <= n,
{
    let mut j: usize = i;
    loop
        invariant
            i <= j <= n,
            n == text@.len(),
            token_end(text@, i as int) == token_end(text@, j as int),
        ensures
            j as int == token_end(text@, i as int),
            i <= j <= n,
        decreases n - j,
    {
        if j == n {
            proof {
                assert(token_end(text@, j as int) == j as int);
            }
            break;
        }
        let c = text.get_char(j);
        if ws_char(c) {
            proof {
                assert(token_end(text@, j as int) == j as int);
            }
            break;
        }
        proof {
            assert(token_end(text@, j as int) == token_end(text@, j + 1));
        }
        j = j + 1;
    }
    j
}

fn scan_skip_ws(text: &str, i: usize, n: usize) -> (r: usize)
    requires
        n == text@.len(),
        i <= n,
    ensures
        r as int == skip_ws(text@, i as int),
        i <= r <= n,
{
    let mut j: usize = i;
    loop
        invariant
            i <= j <= n,
            n == text@.len(),
            skip_ws(text@, i as int) == skip_ws(text@, j as int),
        ensures
            j as int == skip_ws(text@, i as int),
            i <= j <= n,
        decreases n - j,
    {
        if j == n {
            proof {
                assert(skip_ws(text@, j as int) == j as int);
            }
            break;
        }
        let c = text.get_char(j);
        if !ws_char(c) {
            proof {
                assert(skip_ws(text@, j as int) == j as int);
            }
            break;
        }
        proof {
            assert(skip_ws(text@, j as int) == skip_ws(text@, j + 1));
        }
        j = j + 1;
    }
    j
}

fn eq_ci_range(text: &str, from: usize, to: usize, n: usize, other: &str) -> (r: bool)
    requires
        n == text@.len(),
        from <= to <= n,
    ensures
        r == eq_ignore_case(text@.subrange(from as int, to as int), other@),
{
    let ghost sub = text@.subrange(from as int, to as int);
    let m = other.unicode_len();
    if to - from != m {
        return false;
    }
    let mut k: usize = 0;
    while k < m
        invariant
            k <= m,
            m == other@.len(),
            n == text@.len(),
            from <= to <= n,
            to - from == m,
            sub == text@.subrange(from as int, to as int),
            forall|k2: int| 0 <= k2 < k ==> lower(sub[k2]) == lower(other@[k2]),
        decreases m - k,
    {
        let a = lower_char(text.get_char(from + k));
        let b = lower_char(other.get_char(k));
        proof {
            assert(sub[k as int] == text@[from + k]);
        }
        if a != b {
            return false;
        }
        k = k + 1;
    }
    true
}

// ------------------------------------------------------------------
// Executable integer parsing
// ------------------------------------------------------------------

/// Parses a decimal `i64` token: an optional leading minus sign, then one
/// or more digits; `None` on any other shape or when the value is out of
/// range.
#[verifier::loop_isolation(false)]
pub fn parse_i64(s: &str) -> (r: Option<i64>)
    ensures
        r == spec_parse_i64(s@),
{
    let n = s.unicode_len();
    if n == 0 {
        return None;
    }
    let neg = s.get_char(0) == '-';
    let start: usize = if neg {
        1
    } else {
        0
    };
    if neg && n == 1 {
        return None;
    }
    let ghost ds = if neg {
        s@.drop_first()
    } else {
        s@
    };
    proof {
        assert(ds =~= s@.subrange(start as int, n as int));
    }
    let mut i: usize = start;
    let mut acc: Option<u64> = Some(0);
    proof {
        assert(s@.subrange(start as int, start as int) =~= Seq::<char>::empty());
    }
    while i < n
        invariant
            start <= i <= n,
            n == s@.len(),
            start < n,
            ds == s@.subrange(start as int, n as int),
            forall|j: int| start <= j < i ==> is_digit(s@[j]),
            match acc {
                Some(a) => a == digits_value(s@.subrange(start as int, i as int)),
                None => digits_value(s@.subrange(start as int, i as int)) > u64::MAX,
            },
        decreases n - i,
    {
        let c = s.get_char(i);
        let u = c as u32;
        if u < 48 || u > 57 {
            proof {
                assert(ds[i - start] == s@[i as int]);
                assert(!is_digit(ds[i - start]));
                assert(!all_digits(ds));
            }
            return None;
        }
        let d: u64 = (u - 48) as u64;
        let ghost pfx = s@.subrange(start as int, i as int);
        let ghost pfx1 = s@.subrange(start as int, i + 1);
        proof {
            assert(pfx1.drop_last() =~= pfx);
            assert(pfx1.last() == s@[i as int]);
            assert(digits_value(pfx1) == digits_value(pfx) * 10 + d);
        }
        acc = match acc {
            Some(a) => {
                match a.checked_mul(10) {
                    Some(m) => {
                        let next = m.checked_add(d);
                        proof {
                            if next is None {
                                assert(digits_value(pfx1) > u64::MAX);
                            }
                        }
                        next
                    },
                    None => {
                        proof {
                            assert(a * 10 + d > u64::MAX);
                        }
                        None
                    },
                }
            },
            None => {
                proof {
                    let dv = digits_value(pfx);
                    assert(dv * 10 == dv + 9 * dv);
                    assert(digits_value(pfx1) > u64::MAX);
                }
                None
            },
        };
        i = i + 1;
    }
    proof {
        assert(ds == s@.subrange(start as int, n as int));
        assert(all_digits(ds));
    }
    match acc {
        None => None,
        Some(a) => {
            if neg {
                if a <= 0x8000_0000_0000_0000 {
                    let v: i64 = if a == 0x8000_0000_0000_0000 {
                        i64::MIN
                    } else {
                        -(a as i64)
                    };
                    Some(v)
                } else {
                    None
                }
            } else {
                if a <= 0x7fff_ffff_ffff_ffff {
                    Some(a as i64)
                } else {
                    None
                }
            }
        },
    }
}

// ------------------------------------------------------------------
// Executable tokenizing
// ------------------------------------------------------------------

/// The views of a sequence of owned strings.
pub open spec fn token_views(toks: Seq<String>) -> Seq<Seq<char>> {
    Seq::new(toks.len(), |i: int| toks[i]@)
}

fn tokenize(text: &str, i: usize, n: usize) -> (toks: Vec<String>)
    requires
        n == text@.len(),
        i <= n,
    ensures
        token_views(toks@) == spec_tokens(text@, i as int),
{
    let mut toks: Vec<String> = Vec::new();
    let mut cur: usize = i;
    proof {
        assert(token_views(toks@) =~= Seq::<Seq<char>>::empty());
    }
    loop
        invariant
            i <= cur <= n,
            n == text@.len(),
            token_views(toks@) + spec_tokens(text@, cur as int) == spec_tokens(text@, i as int),
        ensures
            token_views(toks@) == spec_tokens(text@, i as int),
        decreases n - cur,
    {
        let j = scan_skip_ws(text, cur, n);
        if j == n {
            proof {
                assert(spec_tokens(text@, cur as int) =~= Seq::<Seq<char>>::empty());
                assert(token_views(toks@) + spec_tokens(text@, cur as int) =~= token_views(
                    toks@,
                ));
            }
            break;
        }
        let te = scan_token_end(text, j, n);
        proof {
            lemma_skip_ws(text@, cur as int);
            lemma_token_end(text@, j as int);
            assert(te > j);
        }
        let tok = String::from_str(text.substring_char(j, te));
        let ghost old_toks = toks@;
        toks.push(tok);
        proof {
            let full = spec_tokens(text@, i as int);
            let st_cur = spec_tokens(text@, cur as int);
            let st_te = spec_tokens(text@, te as int);
            assert(st_cur == seq![text@.subrange(j as int, te as int)] + st_te);
            assert(token_views(toks@) =~= token_views(old_toks) + seq![
                text@.subrange(j as int, te as int),
            ]);
            assert(token_views(toks@) + st_te =~= token_views(old_toks) + st_cur);
        }
        cur = te;
    }
    toks
}

// ------------------------------------------------------------------
// The parser
// ------------------------------------------------------------------

impl CommandTable {
    pub fn new(decls: Vec<CommandDecl>, accept_unaddressed: bool) -> (r: Self)
        ensures
            r == (CommandTable { decls, accept_unaddressed }),
    {
        Self { decls, accept_unaddressed }
    }

    fn lookup(&self, name: &String) -> (r: Option<usize>)
        ensures
            match r {
                Some(i) => i < self.decls@.len() && spec_lookup(self@.decls, name@) == Some(
                    self.decls@[i as int]@,
                ),
                None => spec_lookup(self@.decls, name@) is None,
            },
    {
        let ghost decls = self@.decls;
        let mut i: usize = 0;
        let m = self.decls.len();
        proof {
            assert(decls.skip(0) =~= decls);
        }
        while i < m
            invariant
                i <= m,
                m == self.decls@.len(),
                decls == self@.decls,
                decls.len() == m,
                spec_lookup(decls, name@) == spec_lookup(decls.skip(i as int), name@),
            decreases m - i,
        {
            proof {
                assert(decls.skip(i as int)[0] == decls[i as int]);
                assert(decls.skip(i as int).drop_first() =~= decls.skip(i + 1));
            }
            if self.decls[i].name.eq(name) {
                proof {
                    assert(spec_lookup(decls.skip(i as int), name@) == Some(decls[i as int]));
                }
                return Some(i);
            }
            i = i + 1;
        }
        proof {
            assert(decls.skip(m as int) =~= Seq::<SpecCommandDecl>::empty());
        }
        None
    }

    /// Parses `text` as a command addressed to `bot_name`, against the
    /// declared command set, per the grammar's rules in order: prefix,
    /// name, addressee, arguments.
    #[verifier::loop_isolation(false)]
    pub fn parse(&self, text: &str, bot_name: &str) -> (r: Result<CommandValue, ParseError>)
        ensures
            result_matches(r, spec_parse(self@, text@, bot_name@)),
    {
        let n = text.unicode_len();
        if n == 0 {
            return Err(ParseError::NotACommand);
        }
        if text.get_char(0) != '/' {
            return Err(ParseError::NotACommand);
        }
        let ne = scan_name_end(text, 1, n);
        let name = String::from_str(text.substring_char(1, ne));
        let decl_idx = match self.lookup(&name) {
            None => {
                return Err(ParseError::UnknownCommand);
            },
            Some(i) => i,
        };
        let has_mention = ne < n && text.get_char(ne) == '@';
        let rest_from: usize = if has_mention {
            let me = scan_token_end(text, ne + 1, n);
            if !eq_ci_range(text, ne + 1, me, n, bot_name) {
                return Err(ParseError::WrongRecipient);
            }
            me
        } else {
            if !self.accept_unaddressed {
                return Err(ParseError::WrongRecipient);
            }
            ne
        };
        let ghost sdecl = spec_lookup(self@.decls, name@)->0;
        let rest_start = scan_skip_ws(text, rest_from, n);
        match &self.decls[decl_idx].shape {
            ArgShape::RestOfLine => {
                let rest = String::from_str(text.substring_char(rest_start, n));
                let v = CommandValue { name, args: vec![FieldValue::Text(rest)] };
                proof {
                    assert(v@.args =~= seq![
                        SpecFieldValue::Text(text@.subrange(rest_start as int, n as int)),
                    ]);
                }
                Ok(v)
            },
            ArgShape::Positional(kinds) => {
                let ghost skinds = kinds@;
                let ghost stoks = spec_tokens(text@, rest_start as int);
                let toks = tokenize(text, rest_start, n);
                proof {
                    assert(toks@.len() == stoks.len());
                }
                if toks.len() != kinds.len() {
                    return Err(
                        ParseError::WrongArity { expected: kinds.len(), got: toks.len() },
                    );
                }
                let m = toks.len();
                let mut args: Vec<FieldValue> = Vec::new();
                let mut idx: usize = 0;
                while idx < m
                    invariant
                        idx <= m,
                        m == toks@.len() == kinds@.len() == args@.len() + (m - idx),
                        args@.len() == idx,
                        skinds == kinds@,
                        stoks == token_views(toks@),
                        stoks.len() == m,
                        forall|j: int| 0 <= j < idx ==> spec_field(stoks[j], skinds[j]) == Some(
                            args@[j]@,
                        ),
                    decreases m - idx,
                {
                    proof {
                        assert(stoks[idx as int] == toks@[idx as int]@);
                    }
                    match kinds[idx] {
                        FieldKind::Text => {
                            args.push(FieldValue::Text(toks[idx].clone()));
                        },
                        FieldKind::Integer => {
                            match parse_i64(toks[idx].as_str()) {
                                Some(v) => {
                                    args.push(FieldValue::Integer(v));
                                },
                                None => {
                                    proof {
                                        lemma_convert(stoks, skinds);
                                        assert(spec_field(stoks[idx as int], skinds[idx as int])
                                            is None);
                                        assert(spec_convert(stoks, skinds) == Err::<
                                            Seq<SpecFieldValue>,
                                            int,
                                        >(idx as int));
                                    }
                                    return Err(ParseError::InvalidArgument { index: idx });
                                },
                            }
                        },
                    }
                    idx = idx + 1;
                }
                let v = CommandValue { name, args };
                proof {
                    lemma_convert(stoks, skinds);
                    match spec_convert(stoks, skinds) {
                        Ok(sargs) => {
                            assert(v@.args =~= sargs);
                        },
                        Err(_) => {
                            assert(false);
                        },
                    }
                }
                Ok(v)
            },
        }
    }
}

} // verus!
