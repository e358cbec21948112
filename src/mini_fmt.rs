use vstd::prelude::*;
use vstd::string::StringExecFns;
use vstd::utf8::is_scalar;
use crate::text::{chars_of, push_char};

verus! {

/// How a substituted value is written out.
#[derive(Debug, Clone, Copy, PartialEq, Eq, Structural)]
pub enum FmtStyle {
    /// The value's plain text.
    Str,
    /// The value's quoted, escaped form.
    Repr,
    /// The quoted form in its expanded layout.
    ERepr,
}

/// What the quoted, escaped form of a string holds.
pub uninterp spec fn debug_text(s: Seq<char>) -> Seq<char>;

/// What the expanded quoted form of a string holds.
pub uninterp spec fn debug_pretty_text(s: Seq<char>) -> Seq<char>;

/// Relies on `<str as Debug>::fmt`: the text between double quotes, escaped.
#[verifier::external_body]
fn debug_str(s: &str) -> (r: String)
    ensures
        r@ == debug_text(s@),
        r@.len() >= 2,
        r@[0] == '"',
        r@.last() == '"',
{
    format!("{:?}", s)
}

/// Relies on `<str as Debug>::fmt` with the alternate flag: the text between
/// double quotes, escaped.
#[verifier::external_body]
fn debug_pretty_str(s: &str) -> (r: String)
    ensures
        r@ == debug_pretty_text(s@),
        r@.len() >= 2,
        r@[0] == '"',
        r@.last() == '"',
{
    format!("{:#?}", s)
}

/// The text of `s` written in `style`.
pub open spec fn style_text(style: FmtStyle, s: Seq<char>) -> Seq<char> {
    match style {
        FmtStyle::Str => s,
        FmtStyle::Repr => debug_text(s),
        FmtStyle::ERepr => debug_pretty_text(s),
    }
}

impl FmtStyle {
    /// Writes `str` in this style.
    pub fn fmt_str(self, str: &str) -> (r: String)
        ensures
            r@ == style_text(self, str@),
            self != FmtStyle::Str ==> r@.len() >= 2 && r@[0] == '"' && r@.last() == '"',
    {
        match self {
            FmtStyle::Str => String::from_str(str),
            FmtStyle::Repr => debug_str(str),
            FmtStyle::ERepr => debug_pretty_str(str),
        }
    }
}

/// The abstract form of one compiled instruction.
pub ghost enum Piece {
    /// Text written as it stands.
    Lit(Seq<char>),
    /// The next value of the cursor, in a style.
    Next(FmtStyle),
    /// The value at a fixed position, in a style.
    At(usize, FmtStyle),
}

/// One compiled instruction.
#[derive(Debug, Clone)]
pub enum FmtType {
    /// Text written as it stands.
    Const(String),
    /// The next value of the cursor; the cursor then moves on by one.
    Value { style: FmtStyle },
    /// The value at position `id`; the cursor stays.
    IndexValue { id: usize, style: FmtStyle },
}

impl View for FmtType {
    type V = Piece;

    open spec fn view(&self) -> Piece {
        match self {
            FmtType::Const(s) => Piece::Lit(s@),
            FmtType::Value { style } => Piece::Next(*style),
            FmtType::IndexValue { id, style } => Piece::At(*id, *style),
        }
    }
}

impl Default for FmtType {
    fn default() -> (r: Self)
        ensures
            r@ == Piece::Lit(Seq::empty()),
    {
        FmtType::Const(String::new())
    }
}

/// The texts of a list of values.
pub open spec fn texts(strs: Seq<&str>) -> Seq<Seq<char>> {
    strs.map_values(|s: &str| s@)
}

/// How far one piece moves the cursor.
pub open spec fn advance(p: Piece) -> int {
    match p {
        Piece::Next(_) => 1,
        _ => 0,
    }
}

/// What one piece writes, with the cursor at `cursor`.
pub open spec fn piece_text(p: Piece, vals: Seq<Seq<char>>, cursor: int) -> Seq<char> {
    match p {
        Piece::Lit(s) => s,
        Piece::Next(style) => style_text(style, vals[cursor]),
        Piece::At(id, style) => style_text(style, vals[id as int]),
    }
}

/// Whether every value that one piece reads, with the cursor at `cursor`, is
/// among `n` values.
pub open spec fn piece_fits(p: Piece, cursor: int, n: int) -> bool {
    match p {
        Piece::Lit(_) => true,
        Piece::Next(_) => cursor < n,
        Piece::At(id, _) => id < n,
    }
}

/// What a sequence of pieces writes, starting with the cursor at `cursor`.
pub open spec fn render(ps: Seq<Piece>, vals: Seq<Seq<char>>, cursor: int) -> Seq<char>
    decreases ps.len(),
{
    if ps.len() == 0 {
        Seq::empty()
    } else {
        piece_text(ps[0], vals, cursor) + render(ps.drop_first(), vals, cursor + advance(ps[0]))
    }
}

/// Whether every value that a sequence of pieces reads, starting with the
/// cursor at `cursor`, is among `n` values.
pub open spec fn fits(ps: Seq<Piece>, cursor: int, n: int) -> bool
    decreases ps.len(),
{
    if ps.len() == 0 {
        true
    } else {
        piece_fits(ps[0], cursor, n) && fits(ps.drop_first(), cursor + advance(ps[0]), n)
    }
}

impl FmtType {
    /// Writes this instruction against `args` and moves the cursor `idx`.
    fn fmt_str(&self, idx: &mut usize, args: &[&str]) -> (r: String)
        requires
            piece_fits(self@, *old(idx) as int, args@.len() as int),
        ensures
            r@ == piece_text(self@, texts(args@), *old(idx) as int),
            *final(idx) == *old(idx) + advance(self@),
    {
        match self {
            FmtType::Const(s) => s.clone(),
            FmtType::Value { style } => {
                let tmp_idx = *idx;
                let n = args.len();
                *idx = tmp_idx + 1;
                style.fmt_str(args[tmp_idx])
            },
            FmtType::IndexValue { id, style } => style.fmt_str(args[*id]),
        }
    }
}

/// Why a template was refused.
#[derive(Debug, Clone, PartialEq, Eq)]
pub enum BuildError {
    /// A character that starts no known sequence, or stands where a style was due.
    UnknownSequence(char),
    /// The template ended inside a sequence.
    TruncatedSequence,
    /// The fixed run of characters after `%x`, `%u` or `%U` is not all hex digits.
    InvalidHexDigits(String),
    /// The decoded number is no Unicode scalar value.
    InvalidCodePoint(u32),
}

/// The abstract form of a [`BuildError`].
pub ghost enum Failure {
    Unknown(char),
    Truncated,
    BadHex(Seq<char>),
    BadCodePoint(u32),
}

impl View for BuildError {
    type V = Failure;

    open spec fn view(&self) -> Failure {
        match self {
            BuildError::UnknownSequence(c) => Failure::Unknown(*c),
            BuildError::TruncatedSequence => Failure::Truncated,
            BuildError::InvalidHexDigits(h) => Failure::BadHex(h@),
            BuildError::InvalidCodePoint(v) => Failure::BadCodePoint(*v),
        }
    }
}

/// The style that a style character names.
pub open spec fn style_of(c: char) -> Option<FmtStyle> {
    if c == 's' {
        Some(FmtStyle::Str)
    } else if c == 'r' {
        Some(FmtStyle::Repr)
    } else if c == 'R' {
        Some(FmtStyle::ERepr)
    } else {
        None
    }
}

pub open spec fn is_hex_digit(c: char) -> bool {
    ('0' <= c <= '9') || ('a' <= c <= 'f') || ('A' <= c <= 'F')
}

pub open spec fn hex_digit_value(c: char) -> nat {
    if '0' <= c <= '9' {
        (c as u32 - '0' as u32) as nat
    } else if 'a' <= c <= 'f' {
        (c as u32 - 'a' as u32 + 10) as nat
    } else {
        (c as u32 - 'A' as u32 + 10) as nat
    }
}

/// The number that a run of hex digits spells, most significant first.
pub open spec fn hex_value(h: Seq<char>) -> nat
    decreases h.len(),
{
    if h.len() == 0 {
        0
    } else {
        hex_value(h.drop_last()) * 16 + hex_digit_value(h.last())
    }
}

/// The character that the `n` hex digits at `j` of `t` encode.
pub open spec fn hex_char(t: Seq<char>, j: int, n: int) -> Result<char, Failure> {
    if j + n > t.len() {
        Err(Failure::Truncated)
    } else {
        let h = t.subrange(j, j + n);
        if !(forall|k: int| 0 <= k < n ==> is_hex_digit(#[trigger] h[k])) {
            Err(Failure::BadHex(h))
        } else if !is_scalar(hex_value(h) as u32) {
            Err(Failure::BadCodePoint(hex_value(h) as u32))
        } else {
            Ok((hex_value(h) as u32) as char)
        }
    }
}

/// What the template `t` holds at position `i`.
pub ghost enum Step {
    /// A character of literal text, and the position after it.
    Push(char, int),
    /// A reference to a value, and the position after it.
    Emit(Piece, int),
    /// A malformed sequence.
    Fail(Failure),
}

/// The number of hex digits that follow an escape character, if it takes any.
pub open spec fn hex_len(c: char) -> int {
    if c == 'x' {
        2
    } else if c == 'u' {
        4
    } else if c == 'U' {
        6
    } else {
        0
    }
}

/// The character that a one-letter escape stands for.
pub open spec fn simple_escape(c: char) -> Option<char> {
    if c == '%' {
        Some('%')
    } else if c == 'n' {
        Some('\n')
    } else if c == 'N' {
        Some('\r')
    } else if c == 't' {
        Some('\t')
    } else if c == 'e' {
        Some('\x1b')
    } else {
        None
    }
}

pub open spec fn step(t: Seq<char>, i: int) -> Step {
    if t[i] != '%' {
        Step::Push(t[i], i + 1)
    } else if i + 1 >= t.len() {
        Step::Fail(Failure::Truncated)
    } else {
        let c = t[i + 1];
        if '0' <= c <= '9' {
            if i + 2 >= t.len() {
                Step::Fail(Failure::Truncated)
            } else {
                match style_of(t[i + 2]) {
                    Some(st) => Step::Emit(Piece::At((c as u32 - '0' as u32) as usize, st), i + 3),
                    None => Step::Fail(Failure::Unknown(t[i + 2])),
                }
            }
        } else if simple_escape(c) is Some {
            Step::Push(simple_escape(c)->0, i + 2)
        } else if hex_len(c) > 0 {
            match hex_char(t, i + 2, hex_len(c)) {
                Ok(ch) => Step::Push(ch, i + 2 + hex_len(c)),
                Err(e) => Step::Fail(e),
            }
        } else {
            match style_of(c) {
                Some(st) => Step::Emit(Piece::Next(st), i + 2),
                None => Step::Fail(Failure::Unknown(c)),
            }
        }
    }
}

/// The literal piece for pending text, if there is any.
pub open spec fn flush(pending: Seq<char>) -> Seq<Piece> {
    if pending.len() == 0 {
        Seq::empty()
    } else {
        seq![Piece::Lit(pending)]
    }
}

/// The pieces of `t` from position `i` on, with `pending` literal text not yet
/// written out.
pub open spec fn compile_from(t: Seq<char>, i: int, pending: Seq<char>) -> Result<Seq<Piece>, Failure>
    decreases t.len() - i,
{
    if i < 0 || i >= t.len() {
        Ok(flush(pending))
    } else {
        match step(t, i) {
            Step::Push(c, j) => compile_from(t, j, pending.push(c)),
            Step::Emit(p, j) => match compile_from(t, j, Seq::empty()) {
                Ok(rest) => Ok(flush(pending) + seq![p] + rest),
                Err(e) => Err(e),
            },
            Step::Fail(e) => Err(e),
        }
    }
}

/// The pieces that the template `t` compiles to, or why it is refused.
pub open spec fn compile(t: Seq<char>) -> Result<Seq<Piece>, Failure> {
    compile_from(t, 0, Seq::empty())
}

/// No empty literal, and no two literals side by side.
pub open spec fn coalesced(ps: Seq<Piece>) -> bool {
    &&& forall|k: int| 0 <= k < ps.len() && (#[trigger] ps[k]) is Lit ==> ps[k]->Lit_0.len() > 0
    &&& forall|k: int| 0 <= k < ps.len() - 1 ==> !((#[trigger] ps[k]) is Lit && ps[k + 1] is Lit)
}

pub open spec fn prepend(a: Seq<Piece>, r: Result<Seq<Piece>, Failure>) -> Result<Seq<Piece>, Failure> {
    match r {
        Ok(x) => Ok(a + x),
        Err(e) => Err(e),
    }
}

/// A compiled template: instructions that render against a list of values.
#[derive(Debug, Default)]
pub struct Fmtter {
    args: Vec<FmtType>,
}

impl View for Fmtter {
    type V = Seq<Piece>;

    closed spec fn view(&self) -> Seq<Piece> {
        self.args@.map_values(|t: FmtType| t@)
    }
}

fn style_from_char(c: char) -> (r: Option<FmtStyle>)
    ensures
        r == style_of(c),
{
    if c == 's' {
        Some(FmtStyle::Str)
    } else if c == 'r' {
        Some(FmtStyle::Repr)
    } else if c == 'R' {
        Some(FmtStyle::ERepr)
    } else {
        None
    }
}

/// Relies on `char::from_u32`: a character exactly for a Unicode scalar value.
#[verifier::external_body]
fn char_from_u32(v: u32) -> (r: Option<char>)
    ensures
        r is Some <==> is_scalar(v),
        r is Some ==> r->0 as u32 == v,
{
    char::from_u32(v)
}

fn hex_digit(c: char) -> (r: Option<u32>)
    ensures
        r is Some <==> is_hex_digit(c),
        r is Some ==> r->0 == hex_digit_value(c),
{
    if '0' <= c && c <= '9' {
        Some(c as u32 - '0' as u32)
    } else if 'a' <= c && c <= 'f' {
        Some(c as u32 - 'a' as u32 + 10)
    } else if 'A' <= c && c <= 'F' {
        Some(c as u32 - 'A' as u32 + 10)
    } else {
        None
    }
}

proof fn lemma_hex_value_bound(h: Seq<char>)
    requires
        forall|k: int| 0 <= k < h.len() ==> is_hex_digit(#[trigger] h[k]),
    ensures
        hex_value(h) < pow16(h.len()),
    decreases h.len(),
{
    if h.len() > 0 {
        assert(forall|k: int| 0 <= k < h.len() - 1 ==> h.drop_last()[k] == h[k]);
        lemma_hex_value_bound(h.drop_last());
        assert(hex_digit_value(h.last()) < 16);
        assert(pow16(h.len()) == pow16((h.len() - 1) as nat) * 16);
        assert(hex_value(h) < pow16(h.len())) by (nonlinear_arith)
            requires
                hex_value(h) == hex_value(h.drop_last()) * 16 + hex_digit_value(h.last()),
                hex_value(h.drop_last()) < pow16((h.len() - 1) as nat),
                hex_digit_value(h.last()) < 16,
                pow16(h.len()) == pow16((h.len() - 1) as nat) * 16,
        ;
    }
}

spec fn pow16(n: nat) -> nat
    decreases n,
{
    if n == 0 {
        1
    } else {
        pow16((n - 1) as nat) * 16
    }
}

proof fn lemma_pow16_small(k: nat)
    requires
        k < 6,
    ensures
        pow16(k) <= 1048576,
{
    assert(pow16(0) == 1);
    assert(pow16(1) == 16);
    assert(pow16(2) == 256);
    assert(pow16(3) == 4096);
    assert(pow16(4) == 65536);
    assert(pow16(5) == 1048576);
}

/// Reads the `n` hex digits at `j` of `t` as one character.
fn read_hex(t: &Vec<char>, j: usize, n: usize) -> (r: Result<char, BuildError>)
    requires
        n <= 6,
        j <= t@.len(),
    ensures
        match r {
            Ok(c) => hex_char(t@, j as int, n as int) == Ok::<char, Failure>(c),
            Err(e) => hex_char(t@, j as int, n as int) == Err::<char, Failure>(e@),
        },
{
    if n > t.len() - j {
        return Err(BuildError::TruncatedSequence);
    }
    let ghost h = t@.subrange(j as int, j + n);
    let mut text = String::new();
    let mut all_hex = true;
    let mut k: usize = 0;
    while k < n
        invariant
            k <= n,
            j + n <= t@.len() <= usize::MAX,
            h == t@.subrange(j as int, j + n),
            text@ == h.subrange(0, k as int),
            all_hex == (forall|m: int| 0 <= m < k ==> is_hex_digit(#[trigger] h[m])),
        decreases n - k,
    {
        let c = t[j + k];
        assert(h[k as int] == c);
        push_char(&mut text, c);
        if hex_digit(c).is_none() {
            all_hex = false;
        }
        k = k + 1;
        assert(text@ =~= h.subrange(0, k as int));
    }
    assert(text@ =~= h);
    if !all_hex {
        return Err(BuildError::InvalidHexDigits(text));
    }
    let mut v: u32 = 0;
    let mut k: usize = 0;
    while k < n
        invariant
            k <= n <= 6,
            j + n <= t@.len() <= usize::MAX,
            h == t@.subrange(j as int, j + n),
            forall|m: int| 0 <= m < n ==> is_hex_digit(#[trigger] h[m]),
            v == hex_value(h.subrange(0, k as int)),
        decreases n - k,
    {
        assert(h[k as int] == t@[j + k]);
        let d = hex_digit(t[j + k]).unwrap();
        let ghost pre = h.subrange(0, k as int + 1);
        assert(pre.drop_last() =~= h.subrange(0, k as int));
        proof {
            let hk = h.subrange(0, k as int);
            assert forall|m: int| 0 <= m < hk.len() implies is_hex_digit(#[trigger] hk[m]) by {
                assert(hk[m] == h[m]);
            }
            lemma_hex_value_bound(hk);
            lemma_pow16_small(k as nat);
        }
        v = v * 16 + d;
        k = k + 1;
    }
    assert(h.subrange(0, n as int) =~= h);
    match char_from_u32(v) {
        Some(c) => {
            proof {
                vstd::utf8::char_u32_cast(c, v);
                assert(hex_value(h) as u32 == v);
            }
            Ok(c)
        },
        None => Err(BuildError::InvalidCodePoint(v)),
    }
}

proof fn lemma_step_advances(t: Seq<char>, i: int)
    requires
        0 <= i < t.len(),
    ensures
        step(t, i) matches Step::Push(_, j) ==> j > i,
        step(t, i) matches Step::Emit(p, j) ==> j > i && !(p is Lit),
{
}

proof fn lemma_compile_coalesced(t: Seq<char>, i: int, pending: Seq<char>)
    ensures
        compile_from(t, i, pending) matches Ok(r) ==> coalesced(r) && (r.len() > 0 && r[0] is Lit
            ==> r[0]->Lit_0.len() >= pending.len() && r[0]->Lit_0.subrange(0, pending.len() as int)
            == pending),
    decreases t.len() - i,
{
    if 0 <= i < t.len() {
        lemma_step_advances(t, i);
        match step(t, i) {
            Step::Push(c, j) => {
                lemma_compile_coalesced(t, j, pending.push(c));
                if let Ok(r) = compile_from(t, i, pending) {
                    if r.len() > 0 && r[0] is Lit {
                        let l = r[0]->Lit_0;
                        assert(l.subrange(0, pending.len() as int) =~= l.subrange(
                            0,
                            pending.len() as int + 1,
                        ).subrange(0, pending.len() as int));
                        assert(pending.push(c).subrange(0, pending.len() as int) =~= pending);
                    }
                }
            },
            Step::Emit(p, j) => {
                lemma_compile_coalesced(t, j, Seq::empty());
                if let Ok(rest) = compile_from(t, j, Seq::empty()) {
                    let r = flush(pending) + seq![p] + rest;
                    let off = flush(pending).len() + 1;
                    assert forall|k: int| 0 <= k < r.len() && (#[trigger] r[k]) is Lit implies r[k]->Lit_0.len()
                        > 0 by {
                        if k >= off {
                            assert(r[k] == rest[k - off]);
                        }
                    }
                    assert forall|k: int| 0 <= k < r.len() - 1 implies !((#[trigger] r[k]) is Lit && r[k
                        + 1] is Lit) by {
                        if k >= off {
                            assert(r[k] == rest[k - off]);
                            assert(r[k + 1] == rest[k + 1 - off]);
                        }
                    }
                    if pending.len() > 0 {
                        assert(r[0] == Piece::Lit(pending));
                        assert(pending.subrange(0, pending.len() as int) =~= pending);
                    }
                }
            },
            Step::Fail(_) => {},
        }
    } else {
        if pending.len() > 0 {
            assert(pending.subrange(0, pending.len() as int) =~= pending);
        }
    }
}

/// Moves pending literal text, if there is any, into `args`.
fn flush_pending(args: &mut Vec<FmtType>, last_val: &mut String)
    ensures
        final(args)@.map_values(|t: FmtType| t@) == old(args)@.map_values(|t: FmtType| t@) + flush(
            old(last_val)@,
        ),
        final(last_val)@ == Seq::<char>::empty(),
{
    if !last_val.as_str().is_empty() {
        let ghost before = args@;
        args.push(FmtType::Const(last_val.clone()));
        assert(args@.map_values(|t: FmtType| t@) =~= before.map_values(|t: FmtType| t@) + flush(
            old(last_val)@,
        ));
        *last_val = String::new();
    } else {
        assert(flush(last_val@) =~= Seq::<Piece>::empty());
        assert(args@.map_values(|t: FmtType| t@) =~= args@.map_values(|t: FmtType| t@) + flush(
            last_val@,
        ));
    }
}

impl Fmtter {
    /// An empty template, which renders to the empty string.
    pub fn new() -> (r: Self)
        ensures
            r@ == Seq::<Piece>::empty(),
    {
        let r = Fmtter { args: Vec::new() };
        assert(r@ =~= Seq::<Piece>::empty());
        r
    }

    /// Compiles the template `fmtter`.
    ///
    /// `%s`, `%r` and `%R` take the next value (plain, quoted, expanded quoted);
    /// `%0s` to `%9R` take the value at that position; `%%`, `%n`, `%N`, `%t`,
    /// `%e` stand for `%`, LF, CR, tab and ESC; `%x`, `%u` and `%U` with two,
    /// four or six hex digits stand for that character.
    pub fn build(fmtter: &str) -> (r: Result<Self, BuildError>)
        ensures
            match r {
                Ok(f) => compile(fmtter@) == Ok::<Seq<Piece>, Failure>(f@),
                Err(e) => compile(fmtter@) == Err::<Seq<Piece>, Failure>(e@),
            },
            r is Ok ==> coalesced(r->Ok_0@),
    {
        proof {
            lemma_compile_coalesced(fmtter@, 0, Seq::empty());
        }
        let chars = chars_of(fmtter);
        let ghost t = chars@;
        let len = chars.len();
        let mut args: Vec<FmtType> = Vec::new();
        let mut last_val = String::new();
        let mut i: usize = 0;
        assert(args@.map_values(|t: FmtType| t@) =~= Seq::<Piece>::empty());
        assert(prepend(Seq::empty(), compile_from(t, 0, Seq::empty())) == compile(t)) by {
            match compile_from(t, 0, Seq::empty()) {
                Ok(x) => assert(Seq::<Piece>::empty() + x =~= x),
                Err(_) => {},
            }
        }
        while i < len
            invariant
                t == fmtter@,
                t == chars@,
                len == t.len(),
                i <= len,
                prepend(args@.map_values(|t: FmtType| t@), compile_from(t, i as int, last_val@))
                    == compile(t),
            decreases len - i,
        {
            let ghost done = args@.map_values(|t: FmtType| t@);
            let ghost lv = last_val@;
            let c = chars[i];
            if c != '%' {
                assert(step(t, i as int) == Step::Push(c, i + 1));
                push_char(&mut last_val, c);
                i = i + 1;
                continue;
            }
            if i + 1 >= len {
                assert(step(t, i as int) == Step::Fail(Failure::Truncated));
                return Err(BuildError::TruncatedSequence);
            }
            let next_c = chars[i + 1];
            let ghost p: Piece;
            let next: usize;
            if '0' <= next_c && next_c <= '9' {
                if i + 2 >= len {
                    assert(step(t, i as int) == Step::Fail(Failure::Truncated));
                    return Err(BuildError::TruncatedSequence);
                }
                let sc = chars[i + 2];
                match style_from_char(sc) {
                    Some(style) => {
                        let id = (next_c as u32 - '0' as u32) as usize;
                        flush_pending(&mut args, &mut last_val);
                        args.push(FmtType::IndexValue { id, style });
                        proof {
                            p = Piece::At(id, style);
                        }
                        next = i + 3;
                    },
                    None => {
                        assert(step(t, i as int) == Step::Fail(Failure::Unknown(sc)));
                        return Err(BuildError::UnknownSequence(sc));
                    },
                }
            } else if next_c == '%' || next_c == 'n' || next_c == 'N' || next_c == 't' || next_c == 'e' {
                let e = if next_c == '%' {
                    '%'
                } else if next_c == 'n' {
                    '\n'
                } else if next_c == 'N' {
                    '\r'
                } else if next_c == 't' {
                    '\t'
                } else {
                    '\x1b'
                };
                assert(step(t, i as int) == Step::Push(e, i + 2));
                push_char(&mut last_val, e);
                i = i + 2;
                continue;
            } else if next_c == 'x' || next_c == 'u' || next_c == 'U' {
                let n: usize = if next_c == 'x' {
                    2
                } else if next_c == 'u' {
                    4
                } else {
                    6
                };
                assert(hex_len(next_c) == n);
                match read_hex(&chars, i + 2, n) {
                    Ok(ch) => {
                        assert(step(t, i as int) == Step::Push(ch, i + 2 + n));
                        push_char(&mut last_val, ch);
                        i = i + 2 + n;
                        continue;
                    },
                    Err(e) => {
                        assert(step(t, i as int) == Step::Fail(e@));
                        return Err(e);
                    },
                }
            } else {
                match style_from_char(next_c) {
                    Some(style) => {
                        flush_pending(&mut args, &mut last_val);
                        args.push(FmtType::Value { style });
                        proof {
                            p = Piece::Next(style);
                        }
                        next = i + 2;
                    },
                    None => {
                        assert(step(t, i as int) == Step::Fail(Failure::Unknown(next_c)));
                        return Err(BuildError::UnknownSequence(next_c));
                    },
                }
            }
            assert(step(t, i as int) == Step::Emit(p, next as int));
            assert(args@.map_values(|t: FmtType| t@) =~= done + flush(lv) + seq![p]);
            proof {
                match compile_from(t, next as int, Seq::empty()) {
                    Ok(rest) => {
                        assert(done + flush(lv) + seq![p] + rest =~= done + (flush(lv) + seq![p]
                            + rest));
                    },
                    Err(_) => {},
                }
            }
            i = next;
        }
        flush_pending(&mut args, &mut last_val);
        Ok(Fmtter { args })
    }

    /// Whether rendering against `n` values reads only among them.
    pub fn fits(&self, n: usize) -> (r: bool)
        ensures
            r == fits(self@, 0, n as int),
    {
        let mut idx: usize = 0;
        let mut k: usize = 0;
        let len = self.args.len();
        assert(self@.skip(0) =~= self@);
        while k < len
            invariant
                len == self.args@.len() == self@.len(),
                k <= len,
                idx <= k,
                fits(self@, 0, n as int) == fits(self@.skip(k as int), idx as int, n as int),
            decreases len - k,
        {
            let ghost rest = self@.skip(k as int);
            assert(rest[0] == self.args@[k as int]@);
            assert(rest.drop_first() =~= self@.skip(k + 1));
            match &self.args[k] {
                FmtType::Const(_) => {},
                FmtType::Value { .. } => {
                    if idx >= n {
                        return false;
                    }
                    idx = idx + 1;
                },
                FmtType::IndexValue { id, .. } => {
                    if *id >= n {
                        return false;
                    }
                },
            }
            k = k + 1;
        }
        true
    }

    /// Renders the template against `strs`: literals as they stand, `%s`-like
    /// references from a cursor that starts at 0, indexed ones from their
    /// position, which leaves the cursor where it is.
    pub fn fmt_str(&self, strs: &[&str]) -> (r: String)
        requires
            fits(self@, 0, strs@.len() as int),
        ensures
            r@ == render(self@, texts(strs@), 0),
    {
        let mut res = String::new();
        let mut idx: usize = 0;
        let mut k: usize = 0;
        let len = self.args.len();
        let ghost vals = texts(strs@);
        assert(self@.skip(0) =~= self@);
        while k < len
            invariant
                len == self.args@.len() == self@.len(),
                k <= len,
                idx <= k,
                vals == texts(strs@),
                fits(self@.skip(k as int), idx as int, strs@.len() as int),
                res@ + render(self@.skip(k as int), vals, idx as int) == render(self@, vals, 0),
            decreases len - k,
        {
            let ghost rest = self@.skip(k as int);
            assert(rest[0] == self.args@[k as int]@);
            assert(rest.drop_first() =~= self@.skip(k + 1));
            let ghost res0 = res@;
            let ghost idx0 = idx as int;
            let piece = self.args[k].fmt_str(&mut idx, strs);
            res.append(piece.as_str());
            assert(res0 + piece@ + render(rest.drop_first(), vals, idx as int) =~= res0 + (piece@
                + render(rest.drop_first(), vals, idx as int)));
            k = k + 1;
        }
        assert(render(self@.skip(len as int), vals, idx as int) == Seq::<char>::empty());
        assert(res@ + Seq::<char>::empty() =~= res@);
        res
    }
}

/// Renders every template against every row: all rows for the first template,
/// then all rows for the next, and so on.
pub fn format_rows(fmtters: &Vec<Fmtter>, rows: &Vec<Vec<&str>>) -> (r: Vec<String>)
    requires
        forall|f: int, k: int|
            0 <= f < fmtters@.len() && 0 <= k < rows@.len() ==> fits(
                #[trigger] fmtters@[f]@,
                0,
                #[trigger] rows@[k]@.len() as int,
            ),
    ensures
        r@.len() == fmtters@.len() * rows@.len(),
        forall|f: int, k: int|
            0 <= f < fmtters@.len() && 0 <= k < rows@.len() ==> (#[trigger] r@[f * rows@.len() + k])@
                == render(#[trigger] fmtters@[f]@, texts(rows@[k]@), 0),
{
    let mut res: Vec<String> = Vec::new();
    let nf = fmtters.len();
    let nr = rows.len();
    let mut f: usize = 0;
    while f < nf
        invariant
            nf == fmtters@.len(),
            nr == rows@.len(),
            f <= nf,
            res@.len() == f * nr,
            forall|f: int, k: int|
                0 <= f < fmtters@.len() && 0 <= k < rows@.len() ==> fits(
                    #[trigger] fmtters@[f]@,
                    0,
                    #[trigger] rows@[k]@.len() as int,
                ),
            forall|g: int, k: int|
                0 <= g < f && 0 <= k < nr ==> (#[trigger] res@[g * nr + k])@ == render(
                    fmtters@[g]@,
                    texts(rows@[k]@),
                    0,
                ),
        decreases nf - f,
    {
        let mut k: usize = 0;
        while k < nr
            invariant
                nf == fmtters@.len(),
                nr == rows@.len(),
                f < nf,
                k <= nr,
                res@.len() == f * nr + k,
                forall|f: int, k: int|
                    0 <= f < fmtters@.len() && 0 <= k < rows@.len() ==> fits(
                        #[trigger] fmtters@[f]@,
                        0,
                        #[trigger] rows@[k]@.len() as int,
                    ),
                forall|g: int, j: int|
                    0 <= g < f && 0 <= j < nr ==> (#[trigger] res@[g * nr + j])@ == render(
                        fmtters@[g]@,
                        texts(rows@[j]@),
                        0,
                    ),
                forall|j: int|
                    0 <= j < k ==> (#[trigger] res@[f * nr + j])@ == render(
                        fmtters@[f as int]@,
                        texts(rows@[j]@),
                        0,
                    ),
            decreases nr - k,
        {
            let line = fmtters[f].fmt_str(rows[k].as_slice());
            let ghost before = res@;
            res.push(line);
            proof {
                assert forall|g: int, j: int| 0 <= g < f && 0 <= j < nr implies (#[trigger] res@[g
                    * nr + j])@ == render(fmtters@[g]@, texts(rows@[j]@), 0) by {
                    lemma_row_index(g, j, f as int, nr as int);
                    assert(res@[g * nr + j] == before[g * nr + j]);
                }
            }
            k = k + 1;
        }
        proof {
            assert forall|g: int, j: int| 0 <= g < f + 1 && 0 <= j < nr implies (#[trigger] res@[g
                * nr + j])@ == render(fmtters@[g]@, texts(rows@[j]@), 0) by {
                if g < f {
                } else {
                    assert(g == f);
                }
            }
            assert((f + 1) * nr == f * nr + nr) by (nonlinear_arith);
        }
        f = f + 1;
    }
    res
}

proof fn lemma_row_index(g: int, j: int, f: int, nr: int)
    requires
        0 <= g < f,
        0 <= j < nr,
    ensures
        g * nr + j < f * nr,
{
    assert(g * nr + j < f * nr) by (nonlinear_arith)
        requires
            0 <= g < f,
            0 <= j < nr,
    ;
}

proof fn lemma_plain_run(t: Seq<char>, i: int, m: int, pending: Seq<char>)
    requires
        0 <= i <= m <= t.len(),
        forall|k: int| i <= k < m ==> t[k] != '%',
    ensures
        compile_from(t, i, pending) == compile_from(t, m, pending + t.subrange(i, m)),
    decreases m - i,
{
    if i == m {
        assert(pending + t.subrange(i, m) =~= pending);
    } else {
        assert(step(t, i) == Step::Push(t[i], i + 1));
        lemma_plain_run(t, i + 1, m, pending.push(t[i]));
        assert(pending.push(t[i]) + t.subrange(i + 1, m) =~= pending + t.subrange(i, m));
    }
}

proof fn lemma_render_flush(text: Seq<char>, vals: Seq<Seq<char>>)
    ensures
        render(flush(text), vals, 0) == text,
        fits(flush(text), 0, 0),
{
    let ps = flush(text);
    if text.len() > 0 {
        assert(ps.drop_first() =~= Seq::<Piece>::empty());
        assert(render(ps.drop_first(), vals, 0) == Seq::<char>::empty());
        assert(fits(ps.drop_first(), 0, 0));
        assert(text + Seq::<char>::empty() =~= text);
    } else {
        assert(ps.len() == 0);
        assert(text =~= Seq::<char>::empty());
    }
}

/// A template without `%` compiles to its own text, and renders to that text
/// whatever the values.
pub proof fn lemma_plain_template(t: Seq<char>, vals: Seq<Seq<char>>)
    requires
        forall|k: int| 0 <= k < t.len() ==> t[k] != '%',
    ensures
        compile(t) is Ok,
        render(compile(t)->Ok_0, vals, 0) == t,
{
    lemma_plain_run(t, 0, t.len() as int, Seq::empty());
    assert(Seq::<char>::empty() + t.subrange(0, t.len() as int) =~= t);
    lemma_render_flush(t, vals);
}

/// `%%` between plain text compiles to one literal holding a single `%`, and
/// reads no value: the template renders to the same text against any values,
/// none included.
pub proof fn lemma_percent_literal(a: Seq<char>, b: Seq<char>, vals: Seq<Seq<char>>)
    requires
        forall|k: int| 0 <= k < a.len() ==> a[k] != '%',
        forall|k: int| 0 <= k < b.len() ==> b[k] != '%',
    ensures
        compile(a + seq!['%', '%'] + b) == Ok::<Seq<Piece>, Failure>(seq![Piece::Lit(a + seq!['%'] + b)]),
        render(compile(a + seq!['%', '%'] + b)->Ok_0, vals, 0) == a + seq!['%'] + b,
        fits(compile(a + seq!['%', '%'] + b)->Ok_0, 0, 0),
{
    let t = a + seq!['%', '%'] + b;
    let n = a.len() as int;
    lemma_plain_run(t, 0, n, Seq::empty());
    assert(Seq::<char>::empty() + t.subrange(0, n) =~= a);
    assert(t[n] == '%' && t[n + 1] == '%');
    assert(step(t, n) == Step::Push('%', n + 2));
    lemma_plain_run(t, n + 2, t.len() as int, a.push('%'));
    assert(a.push('%') + t.subrange(n + 2, t.len() as int) =~= a + seq!['%'] + b);
    lemma_render_flush(a + seq!['%'] + b, vals);
}

/// Compiling one template twice gives the same instructions, which render
/// alike against the same values.
pub proof fn lemma_compile_deterministic(t: Seq<char>, x: Fmtter, y: Fmtter, vals: Seq<Seq<char>>)
    requires
        compile(t) == Ok::<Seq<Piece>, Failure>(x@),
        compile(t) == Ok::<Seq<Piece>, Failure>(y@),
    ensures
        x@ == y@,
        render(x@, vals, 0) == render(y@, vals, 0),
{
}

} // verus!
