//! The command line's generator syntax: `--signal`, `--level` and the `--sine` alias.
//!
//! Numbers are checked against the grammar std accepts for an `f32` and handed on as
//! their text; the caller converts them.

use vstd::prelude::*;
use vstd::string::StringExecFns;
use crate::syntax::{
    chars_of, find, find_char, float_text, is_float_text, lemma_find_char, lower, parse_u32,
    slice_chars, string_of, to_lower, trim, trimmed, u32_text,
};

verus! {

/// Why a generator flag was refused.
#[derive(Debug, Clone)]
pub enum CliError {
    /// `sine:<hz>` without exactly one number.
    SineUsage,
    /// `dual:<f1>,<f2>[,<ratio_db>]` without two or three numbers.
    DualUsage,
    /// `multi:` without any number.
    MultiUsage,
    /// `square:<hz>` without exactly one number.
    SquareUsage,
    /// `periodic:<frames>` whose period is not a `u32`.
    PeriodUsage,
    /// A list item that is not a number (the item as written).
    BadNumber(String),
    /// A signal kind that does not exist.
    UnknownSignal(String),
    /// A level whose number does not parse (the level as written).
    BadLevel(String),
    /// A level unit other than dBFS or dBV (lower-cased).
    UnknownUnit(String),
    /// `--sine` without a comma.
    SineAliasUsage,
    /// A `--sine` number that is empty.
    EmptyFloat,
    /// A `--sine` number that is not a number.
    InvalidFloat,
}

/// What a refusal says, over character sequences.
pub enum CliFault {
    SineUsage,
    DualUsage,
    MultiUsage,
    SquareUsage,
    PeriodUsage,
    BadNumber(Seq<char>),
    UnknownSignal(Seq<char>),
    BadLevel(Seq<char>),
    UnknownUnit(Seq<char>),
    SineAliasUsage,
    EmptyFloat,
    InvalidFloat,
}

impl View for CliError {
    type V = CliFault;

    open spec fn view(&self) -> CliFault {
        match self {
            CliError::SineUsage => CliFault::SineUsage,
            CliError::DualUsage => CliFault::DualUsage,
            CliError::MultiUsage => CliFault::MultiUsage,
            CliError::SquareUsage => CliFault::SquareUsage,
            CliError::PeriodUsage => CliFault::PeriodUsage,
            CliError::BadNumber(p) => CliFault::BadNumber(p@),
            CliError::UnknownSignal(k) => CliFault::UnknownSignal(k@),
            CliError::BadLevel(s) => CliFault::BadLevel(s@),
            CliError::UnknownUnit(u) => CliFault::UnknownUnit(u@),
            CliError::SineAliasUsage => CliFault::SineAliasUsage,
            CliError::EmptyFloat => CliFault::EmptyFloat,
            CliError::InvalidFloat => CliFault::InvalidFloat,
        }
    }
}

/// A test signal as the command line names it; numbers are kept as their text.
#[derive(Debug, Clone)]
pub enum SignalSyntax {
    Sine { hz: String },
    /// `ratio_db` absent: the default ratio.
    DualTone { f1: String, f2: String, ratio_db: Option<String> },
    Multitone { frequencies_hz: Vec<String> },
    /// White or pink noise; `period_frames` 0 is not periodic.
    Noise { pink: bool, period_frames: u32 },
    Square { hz: String },
}

pub enum SignalForm {
    Sine(Seq<char>),
    DualTone(Seq<char>, Seq<char>, Option<Seq<char>>),
    Multitone(Seq<Seq<char>>),
    Noise(bool, u32),
    Square(Seq<char>),
}

pub open spec fn texts(v: Seq<String>) -> Seq<Seq<char>> {
    v.map_values(|t: String| t@)
}

impl View for SignalSyntax {
    type V = SignalForm;

    open spec fn view(&self) -> SignalForm {
        match self {
            SignalSyntax::Sine { hz } => SignalForm::Sine(hz@),
            SignalSyntax::DualTone { f1, f2, ratio_db } => SignalForm::DualTone(
                f1@,
                f2@,
                match ratio_db {
                    Some(r) => Some(r@),
                    None => None,
                },
            ),
            SignalSyntax::Multitone { frequencies_hz } => SignalForm::Multitone(texts(frequencies_hz@)),
            SignalSyntax::Noise { pink, period_frames } => SignalForm::Noise(*pink, *period_frames),
            SignalSyntax::Square { hz } => SignalForm::Square(hz@),
        }
    }
}

#[derive(Debug, Clone, Copy, PartialEq, Eq, Structural)]
pub enum LevelUnit {
    /// Peak level in dBFS.
    PeakDbfs,
    /// RMS level in dBV.
    DbvRms,
}

/// A level as the command line names it: the number's text and its unit.
#[derive(Debug, Clone)]
pub struct LevelSyntax {
    pub unit: LevelUnit,
    pub value: String,
}

pub struct LevelForm {
    pub unit: LevelUnit,
    pub value: Seq<char>,
}

impl View for LevelSyntax {
    type V = LevelForm;

    open spec fn view(&self) -> LevelForm {
        LevelForm { unit: self.unit, value: self.value@ }
    }
}

/// What the generator flags ask for.
#[derive(Debug, Clone)]
pub enum GeneratorSyntax {
    /// `--sine <hz>,<dbfs>`.
    SineAlias { hz: String, amplitude_dbfs: String },
    /// `--signal` with its `--level`.
    Signal { signal: SignalSyntax, level: LevelSyntax },
}

pub enum GeneratorForm {
    SineAlias(Seq<char>, Seq<char>),
    Signal(SignalForm, LevelForm),
}

impl View for GeneratorSyntax {
    type V = GeneratorForm;

    open spec fn view(&self) -> GeneratorForm {
        match self {
            GeneratorSyntax::SineAlias { hz, amplitude_dbfs } => GeneratorForm::SineAlias(hz@, amplitude_dbfs@),
            GeneratorSyntax::Signal { signal, level } => GeneratorForm::Signal(signal@, level@),
        }
    }
}

/// The numbers of a comma-separated list from position `pos` on: blank items are skipped;
/// the first item that is not a number is the error (as written).
pub open spec fn numbers_from(a: Seq<char>, pos: int) -> Result<Seq<Seq<char>>, Seq<char>>
    decreases a.len() - pos,
{
    let k = find_char(a, ',', pos);
    let piece = a.subrange(pos, k);
    let t = trimmed(piece);
    let head = if t.len() == 0 { Seq::<Seq<char>>::empty() } else { seq![t] };
    if t.len() > 0 && !is_float_text(t) {
        Err(piece)
    } else if k < 0 || k >= a.len() || pos < 0 {
        Ok(head)
    } else {
        proof {
            if pos <= a.len() {
                lemma_find_char(a, ',', pos);
            }
        }
        match numbers_from(a, k + 1) {
            Ok(rest) => Ok(head + rest),
            Err(p) => Err(p),
        }
    }
}

pub open spec fn numbers(a: Seq<char>) -> Result<Seq<Seq<char>>, Seq<char>> {
    numbers_from(a, 0)
}

pub open spec fn after(done: Seq<Seq<char>>, r: Result<Seq<Seq<char>>, Seq<char>>) -> Result<Seq<Seq<char>>, Seq<char>> {
    match r {
        Ok(rest) => Ok(done + rest),
        Err(p) => Err(p),
    }
}

/// The numbers of a comma-separated list.
pub fn parse_numbers(a: &[char]) -> (r: Result<Vec<String>, String>)
    ensures
        match r {
            Ok(v) => numbers(a@) == Ok::<Seq<Seq<char>>, Seq<char>>(texts(v@)),
            Err(p) => numbers(a@) == Err::<Seq<Seq<char>>, Seq<char>>(p@),
        },
{
    let n = a.len();
    let mut out: Vec<String> = Vec::new();
    let mut pos: usize = 0;
    loop
        invariant
            n == a@.len(),
            pos <= n,
            numbers(a@) == after(texts(out@), numbers_from(a@, pos as int)),
        decreases n - pos,
    {
        let k = find(a, ',', pos);
        proof {
            lemma_find_char(a@, ',', pos as int);
        }
        let piece = slice_chars(a, pos, k);
        let t = trim(piece.as_slice());
        let ghost done = texts(out@);
        if t.len() > 0 && !float_text(t.as_slice(), 0, t.len()) {
            proof {
                assert(t@.subrange(0, t@.len() as int) =~= t@);
            }
            return Err(string_of(piece.as_slice()));
        }
        proof {
            assert(t@.subrange(0, t@.len() as int) =~= t@);
        }
        if t.len() > 0 {
            let s = string_of(t.as_slice());
            out.push(s);
            proof {
                assert(texts(out@) =~= done + seq![t@]);
            }
        } else {
            proof {
                assert(texts(out@) =~= done + Seq::<Seq<char>>::empty());
            }
        }
        if k >= n {
            return Ok(out);
        }
        proof {
            let head = if t@.len() == 0 { Seq::<Seq<char>>::empty() } else { seq![t@] };
            assert(texts(out@) == done + head);
            match numbers_from(a@, k + 1) {
                Ok(rest) => {
                    assert(done + (head + rest) =~= (done + head) + rest);
                },
                Err(p) => {},
            }
        }
        pos = k + 1;
    }
}

fn word_eq(v: &[char], w: &str) -> (r: bool)
    ensures
        r == (v@ == w@),
{
    let u = chars_of(w);
    let n = v.len();
    if n != u.len() {
        return false;
    }
    let mut i: usize = 0;
    while i < n
        invariant
            n == v@.len(),
            n == u@.len(),
            u@ == w@,
            i <= n,
            forall|j: int| 0 <= j < i ==> v@[j] == u@[j],
        decreases n - i,
    {
        if v[i] != u[i] {
            return false;
        }
        i = i + 1;
    }
    assert(v@ =~= u@);
    true
}

/// The `--signal` syntax: `sine:<hz>`, `dual:<f1>,<f2>[,<ratio_db>]`, `multi:<f1>,<f2>,...`,
/// `white`, `pink`, `periodic[:<frames>]`, `square:<hz>`.
pub open spec fn signal_spec(s: Seq<char>) -> Result<SignalForm, CliFault> {
    let c = find_char(s, ':', 0);
    let kind = if c < s.len() { trimmed(s.take(c)) } else { trimmed(s) };
    let args = if c < s.len() { trimmed(s.skip(c + 1)) } else { Seq::<char>::empty() };
    if kind == "sine"@ {
        match numbers(args) {
            Err(p) => Err(CliFault::BadNumber(p)),
            Ok(v) => if v.len() == 1 {
                Ok(SignalForm::Sine(v[0]))
            } else {
                Err(CliFault::SineUsage)
            },
        }
    } else if kind == "dual"@ {
        match numbers(args) {
            Err(p) => Err(CliFault::BadNumber(p)),
            Ok(v) => if v.len() == 2 {
                Ok(SignalForm::DualTone(v[0], v[1], None))
            } else if v.len() == 3 {
                Ok(SignalForm::DualTone(v[0], v[1], Some(v[2])))
            } else {
                Err(CliFault::DualUsage)
            },
        }
    } else if kind == "multi"@ {
        match numbers(args) {
            Err(p) => Err(CliFault::BadNumber(p)),
            Ok(v) => if v.len() == 0 {
                Err(CliFault::MultiUsage)
            } else {
                Ok(SignalForm::Multitone(v))
            },
        }
    } else if kind == "white"@ || kind == "pink"@ {
        Ok(SignalForm::Noise(kind == "pink"@, 0))
    } else if kind == "periodic"@ {
        if args.len() == 0 {
            Ok(SignalForm::Noise(false, 16_384))
        } else {
            match u32_text(args) {
                Some(p) => Ok(SignalForm::Noise(false, p)),
                None => Err(CliFault::PeriodUsage),
            }
        }
    } else if kind == "square"@ {
        match numbers(args) {
            Err(p) => Err(CliFault::BadNumber(p)),
            Ok(v) => if v.len() == 1 {
                Ok(SignalForm::Square(v[0]))
            } else {
                Err(CliFault::SquareUsage)
            },
        }
    } else {
        Err(CliFault::UnknownSignal(kind))
    }
}

pub open spec fn signal_result(r: Result<SignalSyntax, CliError>) -> Result<SignalForm, CliFault> {
    match r {
        Ok(g) => Ok(g@),
        Err(e) => Err(e@),
    }
}

/// Parse a `--signal` value.
pub fn parse_signal(s: &str) -> (r: Result<SignalSyntax, CliError>)
    ensures
        signal_result(r) == signal_spec(s@),
{
    let v = chars_of(s);
    let n = v.len();
    let c = find(v.as_slice(), ':', 0);
    proof {
        lemma_find_char(v@, ':', 0);
    }
    let (kind, args) = if c < n {
        let k = slice_chars(v.as_slice(), 0, c);
        let a = slice_chars(v.as_slice(), c + 1, n);
        proof {
            assert(k@ =~= s@.take(c as int));
            assert(a@ =~= s@.skip(c + 1));
        }
        (trim(k.as_slice()), trim(a.as_slice()))
    } else {
        (trim(v.as_slice()), Vec::new())
    };
    proof {
        assert(args@ == (if c < s@.len() { trimmed(s@.skip(c + 1)) } else { Seq::<char>::empty() }));
    }
    if word_eq(kind.as_slice(), "sine") {
        proof {
            reveal_strlit("sine");
        }
        match parse_numbers(args.as_slice()) {
            Err(p) => Err(CliError::BadNumber(p)),
            Ok(mut v) => {
                if v.len() == 1 {
                    let hz = v.pop().unwrap();
                    proof {
                        assert(texts(v@.push(hz))[0] == hz@);
                    }
                    Ok(SignalSyntax::Sine { hz })
                } else {
                    Err(CliError::SineUsage)
                }
            },
        }
    } else if word_eq(kind.as_slice(), "dual") {
        proof {
            reveal_strlit("sine");
            reveal_strlit("square");
            reveal_strlit("dual");
        }
        match parse_numbers(args.as_slice()) {
            Err(p) => Err(CliError::BadNumber(p)),
            Ok(mut v) => {
                let ghost all = texts(v@);
                if v.len() == 2 {
                    let f2 = v.pop().unwrap();
                    let f1 = v.pop().unwrap();
                    proof {
                        assert(all[0] == f1@ && all[1] == f2@);
                    }
                    Ok(SignalSyntax::DualTone { f1, f2, ratio_db: None })
                } else if v.len() == 3 {
                    let r = v.pop().unwrap();
                    let f2 = v.pop().unwrap();
                    let f1 = v.pop().unwrap();
                    proof {
                        assert(all[0] == f1@ && all[1] == f2@ && all[2] == r@);
                    }
                    Ok(SignalSyntax::DualTone { f1, f2, ratio_db: Some(r) })
                } else {
                    Err(CliError::DualUsage)
                }
            },
        }
    } else if word_eq(kind.as_slice(), "multi") {
        proof {
            reveal_strlit("sine");
            reveal_strlit("square");
            reveal_strlit("dual");
            reveal_strlit("multi");
        }
        match parse_numbers(args.as_slice()) {
            Err(p) => Err(CliError::BadNumber(p)),
            Ok(v) => {
                if v.len() == 0 {
                    Err(CliError::MultiUsage)
                } else {
                    Ok(SignalSyntax::Multitone { frequencies_hz: v })
                }
            },
        }
    } else if word_eq(kind.as_slice(), "white") || word_eq(kind.as_slice(), "pink") {
        let pink = word_eq(kind.as_slice(), "pink");
        proof {
            reveal_strlit("sine");
            reveal_strlit("square");
            reveal_strlit("dual");
            reveal_strlit("multi");
            reveal_strlit("white");
            reveal_strlit("pink");
        }
        Ok(SignalSyntax::Noise { pink, period_frames: 0 })
    } else if word_eq(kind.as_slice(), "periodic") {
        proof {
            reveal_strlit("sine");
            reveal_strlit("square");
            reveal_strlit("dual");
            reveal_strlit("multi");
            reveal_strlit("white");
            reveal_strlit("pink");
            reveal_strlit("periodic");
        }
        if args.len() == 0 {
            Ok(SignalSyntax::Noise { pink: false, period_frames: 16_384 })
        } else {
            match parse_u32(args.as_slice()) {
                Some(p) => Ok(SignalSyntax::Noise { pink: false, period_frames: p }),
                None => Err(CliError::PeriodUsage),
            }
        }
    } else if word_eq(kind.as_slice(), "square") {
        proof {
            reveal_strlit("sine");
            reveal_strlit("square");
            reveal_strlit("dual");
            reveal_strlit("multi");
            reveal_strlit("white");
            reveal_strlit("pink");
            reveal_strlit("periodic");
        }
        match parse_numbers(args.as_slice()) {
            Err(p) => Err(CliError::BadNumber(p)),
            Ok(mut v) => {
                if v.len() == 1 {
                    let hz = v.pop().unwrap();
                    proof {
                        assert(texts(v@.push(hz))[0] == hz@);
                    }
                    Ok(SignalSyntax::Square { hz })
                } else {
                    Err(CliError::SquareUsage)
                }
            },
        }
    } else {
        proof {
            reveal_strlit("sine");
            reveal_strlit("square");
            reveal_strlit("dual");
            reveal_strlit("multi");
            reveal_strlit("white");
            reveal_strlit("pink");
            reveal_strlit("periodic");
        }
        Err(CliError::UnknownSignal(string_of(kind.as_slice())))
    }
}

pub open spec fn is_ascii_alpha(c: char) -> bool {
    ('A' <= c <= 'Z') || ('a' <= c <= 'z')
}

/// Position of the first ASCII letter at or after `i` (the length when there is none).
pub open spec fn first_alpha(s: Seq<char>, i: int) -> int
    decreases s.len() - i,
{
    if 0 <= i < s.len() && !is_ascii_alpha(s[i]) {
        first_alpha(s, i + 1)
    } else {
        i
    }
}

/// The `--level` syntax: `-20dBFS` (peak) or `-10dBV` (RMS), case-blind, blanks allowed
/// around the parts; a bare number is dBFS.
pub open spec fn level_spec(s: Seq<char>) -> Result<LevelForm, CliFault> {
    let t = trimmed(s).map_values(|c: char| lower(c));
    let i = first_alpha(t, 0);
    let unit = if i < t.len() { trimmed(t.skip(i)) } else { "dbfs"@ };
    let value = trimmed(t.take(i));
    if !is_float_text(value) {
        Err(CliFault::BadLevel(s))
    } else if unit == "dbfs"@ {
        Ok(LevelForm { unit: LevelUnit::PeakDbfs, value })
    } else if unit == "dbv"@ {
        Ok(LevelForm { unit: LevelUnit::DbvRms, value })
    } else {
        Err(CliFault::UnknownUnit(unit))
    }
}

pub open spec fn level_result(r: Result<LevelSyntax, CliError>) -> Result<LevelForm, CliFault> {
    match r {
        Ok(l) => Ok(l@),
        Err(e) => Err(e@),
    }
}

fn lowercase(v: &[char]) -> (r: Vec<char>)
    ensures
        r@ == v@.map_values(|c: char| lower(c)),
{
    let n = v.len();
    let mut r: Vec<char> = Vec::new();
    let mut i: usize = 0;
    while i < n
        invariant
            n == v@.len(),
            i <= n,
            r@.len() == i,
            forall|j: int| 0 <= j < i ==> #[trigger] r@[j] == lower(v@[j]),
        decreases n - i,
    {
        r.push(to_lower(v[i]));
        i = i + 1;
    }
    assert(r@ =~= v@.map_values(|c: char| lower(c)));
    r
}

/// Parse a `--level` value.
pub fn parse_level(s: &str) -> (r: Result<LevelSyntax, CliError>)
    ensures
        level_result(r) == level_spec(s@),
{
    let v = chars_of(s);
    let tv = trim(v.as_slice());
    let t = lowercase(tv.as_slice());
    let n = t.len();
    let mut i: usize = 0;
    while i < n && !(('A' <= t[i] && t[i] <= 'Z') || ('a' <= t[i] && t[i] <= 'z'))
        invariant
            n == t@.len(),
            i <= n,
            first_alpha(t@, i as int) == first_alpha(t@, 0),
        decreases n - i,
    {
        i = i + 1;
    }
    proof {
        assert(t@.take(i as int) =~= t@.subrange(0, i as int));
    }
    let num = slice_chars(t.as_slice(), 0, i);
    let value = trim(num.as_slice());
    let ok = float_text(value.as_slice(), 0, value.len());
    proof {
        assert(value@.subrange(0, value@.len() as int) =~= value@);
    }
    if !ok {
        return Err(CliError::BadLevel(String::from_str(s)));
    }
    let unit = if i < n {
        let rest = slice_chars(t.as_slice(), i, n);
        proof {
            assert(rest@ =~= t@.skip(i as int));
        }
        trim(rest.as_slice())
    } else {
        chars_of("dbfs")
    };
    if word_eq(unit.as_slice(), "dbfs") {
        Ok(LevelSyntax { unit: LevelUnit::PeakDbfs, value: string_of(value.as_slice()) })
    } else if word_eq(unit.as_slice(), "dbv") {
        Ok(LevelSyntax { unit: LevelUnit::DbvRms, value: string_of(value.as_slice()) })
    } else {
        Err(CliError::UnknownUnit(string_of(unit.as_slice())))
    }
}

/// A `--sine` number: empty, not a number, or its text.
pub open spec fn alias_number(f: Seq<char>) -> Result<Seq<char>, CliFault> {
    if f.len() == 0 {
        Err(CliFault::EmptyFloat)
    } else if !is_float_text(f) {
        Err(CliFault::InvalidFloat)
    } else {
        Ok(f)
    }
}

/// What the generator flags ask for: the `--sine <hz>,<dbfs>` alias wins; otherwise
/// `--signal`, with `--level` (default `-20dBFS`), which is read first.
pub open spec fn generator_spec(
    signal: Option<Seq<char>>,
    level: Option<Seq<char>>,
    sine_alias: Option<Seq<char>>,
) -> Result<Option<GeneratorForm>, CliFault> {
    match sine_alias {
        Some(a) => {
            let c = find_char(a, ',', 0);
            if c >= a.len() {
                Err(CliFault::SineAliasUsage)
            } else {
                match alias_number(trimmed(a.take(c))) {
                    Err(e) => Err(e),
                    Ok(f) => match alias_number(trimmed(a.skip(c + 1))) {
                        Err(e) => Err(e),
                        Ok(d) => Ok(Some(GeneratorForm::SineAlias(f, d))),
                    },
                }
            }
        },
        None => match signal {
            None => Ok(None),
            Some(sg) => {
                let lv = match level {
                    Some(l) => l,
                    None => "-20dBFS"@,
                };
                match level_spec(lv) {
                    Err(e) => Err(e),
                    Ok(l) => match signal_spec(sg) {
                        Err(e) => Err(e),
                        Ok(g) => Ok(Some(GeneratorForm::Signal(g, l))),
                    },
                }
            },
        },
    }
}

pub open spec fn text_of(s: Option<&str>) -> Option<Seq<char>> {
    match s {
        Some(t) => Some(t@),
        None => None,
    }
}

pub open spec fn generator_result(r: Result<Option<GeneratorSyntax>, CliError>) -> Result<Option<GeneratorForm>, CliFault> {
    match r {
        Ok(Some(g)) => Ok(Some(g@)),
        Ok(None) => Ok(None),
        Err(e) => Err(e@),
    }
}

fn alias_text(v: &[char]) -> (r: Result<String, CliError>)
    ensures
        match r {
            Ok(t) => alias_number(trimmed(v@)) == Ok::<Seq<char>, CliFault>(t@),
            Err(e) => alias_number(trimmed(v@)) == Err::<Seq<char>, CliFault>(e@),
        },
{
    let f = trim(v);
    if f.len() == 0 {
        return Err(CliError::EmptyFloat);
    }
    let ok = float_text(f.as_slice(), 0, f.len());
    proof {
        assert(f@.subrange(0, f@.len() as int) =~= f@);
    }
    if !ok {
        return Err(CliError::InvalidFloat);
    }
    Ok(string_of(f.as_slice()))
}

/// Build the generator request from the command-line flags.
pub fn generator(signal: Option<&str>, level: Option<&str>, sine_alias: Option<&str>) -> (r: Result<
    Option<GeneratorSyntax>,
    CliError,
>)
    ensures
        generator_result(r) == generator_spec(text_of(signal), text_of(level), text_of(sine_alias)),
{
    if let Some(a) = sine_alias {
        let v = chars_of(a);
        let n = v.len();
        let c = find(v.as_slice(), ',', 0);
        proof {
            lemma_find_char(v@, ',', 0);
        }
        if c >= n {
            return Err(CliError::SineAliasUsage);
        }
        let left = slice_chars(v.as_slice(), 0, c);
        let right = slice_chars(v.as_slice(), c + 1, n);
        proof {
            assert(left@ =~= a@.take(c as int));
            assert(right@ =~= a@.skip(c + 1));
        }
        let hz = match alias_text(left.as_slice()) {
            Ok(t) => t,
            Err(e) => return Err(e),
        };
        let amplitude_dbfs = match alias_text(right.as_slice()) {
            Ok(t) => t,
            Err(e) => return Err(e),
        };
        return Ok(Some(GeneratorSyntax::SineAlias { hz, amplitude_dbfs }));
    }
    let sg = match signal {
        Some(sg) => sg,
        None => return Ok(None),
    };
    let lv = match level {
        Some(l) => l,
        None => "-20dBFS",
    };
    let level = match parse_level(lv) {
        Ok(l) => l,
        Err(e) => return Err(e),
    };
    let signal = match parse_signal(sg) {
        Ok(g) => g,
        Err(e) => return Err(e),
    };
    Ok(Some(GeneratorSyntax::Signal { signal, level }))
}

} // verus!
