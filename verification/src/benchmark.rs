//! Benchmark run records: the CSV format they are exchanged in, and the
//! selection of runs by model, compression profile and context size.
//!
//! Columns that hold measurements with a fractional part are checked to read
//! as floating-point numbers and kept as their trimmed text; whoever needs
//! them as numbers converts that text.

use vstd::prelude::*;

use crate::sandbox::views;
use crate::text::{
    chars_eq, decimal, digits_value, first_index, is_digit, lemma_first_index, lemma_first_index_unique, push_decimal,
    push_str, string_from_range, to_chars, trim, trim_bounds, trim_string,
};

verus! {

broadcast use vstd::string::group_string_axioms;

// ----------------------------------------------------------------------------
// Fields of one CSV row
// ----------------------------------------------------------------------------

/// The fields of a CSV row, scanned left to right: a double quote toggles
/// quoting and is dropped, a comma outside quotes ends a field, any other
/// character belongs to the current field. Each field is trimmed.
pub open spec fn csv_scan(s: Seq<char>, done: Seq<Seq<char>>, cur: Seq<char>, quoted: bool) -> Seq<Seq<char>>
    decreases s.len(),
{
    if s.len() == 0 {
        done.push(trim(cur))
    } else if s[0] == '"' {
        csv_scan(s.drop_first(), done, cur, !quoted)
    } else if s[0] == ',' && !quoted {
        csv_scan(s.drop_first(), done.push(trim(cur)), seq![], quoted)
    } else {
        csv_scan(s.drop_first(), done, cur.push(s[0]), quoted)
    }
}

/// The trimmed fields of a CSV row.
pub open spec fn csv_fields(line: Seq<char>) -> Seq<Seq<char>> {
    csv_scan(line, seq![], seq![], false)
}

/// Split a CSV row into its trimmed fields; quotes group commas into a field
/// and are themselves dropped.
pub fn split_csv_row(line: &str) -> (r: Vec<String>)
    ensures
        views(r@) == csv_fields(line@),
{
    let v = to_chars(line);
    let mut fields: Vec<String> = Vec::new();
    let mut current: Vec<char> = Vec::new();
    let mut in_quotes = false;
    let mut i: usize = 0;
    proof {
        assert(v@.subrange(0, v@.len() as int) == v@);
        assert(views(fields@) == Seq::<Seq<char>>::empty());
    }
    while i < v.len()
        invariant
            i <= v.len(),
            v@ == line@,
            csv_scan(v@.subrange(i as int, v@.len() as int), views(fields@), current@, in_quotes)
                == csv_fields(line@),
        decreases v.len() - i,
    {
        let ch = v[i];
        let ghost rest = v@.subrange(i as int, v@.len() as int);
        assert(rest.drop_first() == v@.subrange(i + 1, v@.len() as int));
        assert(rest[0] == ch);
        if ch == '"' {
            in_quotes = !in_quotes;
        } else if ch == ',' && !in_quotes {
            let f = trim_string(&current);
            let ghost before = views(fields@);
            fields.push(f);
            assert(views(fields@) == before.push(trim(current@)));
            current = Vec::new();
            assert(current@ == Seq::<char>::empty());
        } else {
            current.push(ch);
        }
        i += 1;
    }
    let f = trim_string(&current);
    let ghost before = views(fields@);
    fields.push(f);
    assert(views(fields@) == before.push(trim(current@)));
    fields
}

// ----------------------------------------------------------------------------
// Unsigned integers and booleans
// ----------------------------------------------------------------------------

/// The digits of an unsigned integer's text: an optional leading `+` dropped.
pub open spec fn unsigned_digits(s: Seq<char>) -> Seq<char> {
    if s.len() > 0 && s[0] == '+' {
        s.drop_first()
    } else {
        s
    }
}

/// The value of `s` read as an unsigned integer no greater than `max`, as the
/// standard library's `from_str` for unsigned integers reads it: an optional
/// `+`, then one or more decimal digits; `None` if the text is anything else
/// or the value exceeds `max`.
pub open spec fn parse_unsigned(s: Seq<char>, max: nat) -> Option<nat> {
    let d = unsigned_digits(s);
    if d.len() > 0 && (forall|i: int| 0 <= i < d.len() ==> is_digit(#[trigger] d[i]))
        && digits_value(d) <= max {
        Some(digits_value(d))
    } else {
        None
    }
}

proof fn lemma_digits_value_prefix_mono(d: Seq<char>, i: int)
    requires
        0 <= i <= d.len(),
        forall|k: int| 0 <= k < d.len() ==> is_digit(#[trigger] d[k]),
    ensures
        digits_value(d.take(i)) <= digits_value(d),
    decreases d.len() - i,
{
    if i < d.len() {
        lemma_digits_value_prefix_mono(d, i + 1);
        let p = d.take(i + 1);
        assert(p.drop_last() == d.take(i));
        assert(p.last() == d[i]);
        assert(is_digit(d[i]));
    } else {
        assert(d.take(i) == d);
    }
}

/// Read `s` as an unsigned integer no greater than `max`.
fn parse_unsigned_text(s: &str, max: u64) -> (r: Option<u64>)
    requires
        max >= 9,
    ensures
        r matches Some(v) ==> parse_unsigned(s@, max as nat) == Some(v as nat),
        r is None ==> parse_unsigned(s@, max as nat) is None,
{
    let v = to_chars(s);
    let mut start: usize = 0;
    if v.len() > 0 && v[0] == '+' {
        start = 1;
    }
    let ghost d = unsigned_digits(s@);
    assert(d == v@.subrange(start as int, v@.len() as int));
    if start == v.len() {
        return None;
    }
    let mut value: u64 = 0;
    let mut i: usize = start;
    while i < v.len()
        invariant
            start <= i <= v.len(),
            max >= 9,
            v@ == s@,
            d == unsigned_digits(s@),
            d == v@.subrange(start as int, v@.len() as int),
            forall|k: int| 0 <= k < i - start ==> is_digit(#[trigger] d[k]),
            value as nat == digits_value(d.take(i - start)),
            value <= max,
        decreases v.len() - i,
    {
        let c = v[i];
        assert(d[i - start] == c);
        if !('0' <= c && c <= '9') {
            assert(!is_digit(d[i - start]));
            return None;
        }
        let dv = (c as u32 - '0' as u32) as u64;
        assert(dv <= 9);
        let ghost p = d.take(i - start + 1);
        assert(p.drop_last() == d.take(i - start));
        assert(p.last() == c);
        if value > (max - dv) / 10 {
            proof {
                assert(digits_value(p) > max) by (nonlinear_arith)
                    requires
                        value > (max - dv) / 10,
                        digits_value(p) == value * 10 + dv,
                        dv <= 9,
                        dv <= max,
                ;
                if forall|k: int| 0 <= k < d.len() ==> is_digit(#[trigger] d[k]) {
                    lemma_digits_value_prefix_mono(d, i - start + 1);
                }
            }
            return None;
        }
        assert(value * 10 + dv <= max) by (nonlinear_arith)
            requires
                value <= (max - dv) / 10,
                dv <= max,
        ;
        value = value * 10 + dv;
        i += 1;
    }
    assert(d.take(i - start) == d);
    Some(value)
}


/// The result of `str::to_lowercase` (Unicode lower-casing).
pub uninterp spec fn unicode_lowercase(s: Seq<char>) -> Seq<char>;

/// `c` lower-cased if it is an ASCII letter.
pub open spec fn ascii_lower(c: char) -> char {
    if 'A' <= c && c <= 'Z' {
        ((c as u32) + 32) as char
    } else {
        c
    }
}

/// Lower-cases a string (`str::to_lowercase`).
///
/// Trusted: claims that the result is a function of the input alone, and that
/// on ASCII input it lower-cases each letter and keeps the other characters;
/// what the Unicode case mapping does to other characters is left unsaid.
#[verifier::external_body]
fn to_lowercase(s: &str) -> (r: String)
    ensures
        r@ == unicode_lowercase(s@),
        vstd::string::is_ascii(s) ==> r@ == s@.map_values(|c: char| ascii_lower(c)),
{
    s.to_lowercase()
}

/// The boolean a lower-cased word stands for: `true`, `1` and `yes` for
/// true; `false`, `0` and `no` for false.
pub open spec fn bool_word(l: Seq<char>) -> Option<bool> {
    if l == "true"@ || l == "1"@ || l == "yes"@ {
        Some(true)
    } else if l == "false"@ || l == "0"@ || l == "no"@ {
        Some(false)
    } else {
        None
    }
}

fn is_word(v: &Vec<char>, w: &str) -> (r: bool)
    ensures
        r == (v@ == w@),
{
    let wv = to_chars(w);
    chars_eq(v, &wv)
}

/// The boolean that an already lower-cased word stands for.
pub fn bool_from_lowered(l: &str) -> (r: Option<bool>)
    ensures
        r == bool_word(l@),
{
    let v = to_chars(l);
    if is_word(&v, "true") || is_word(&v, "1") || is_word(&v, "yes") {
        Some(true)
    } else if is_word(&v, "false") || is_word(&v, "0") || is_word(&v, "no") {
        Some(false)
    } else {
        None
    }
}

/// `s` with ASCII letters lower-cased.
pub open spec fn lower_ascii(s: Seq<char>) -> Seq<char> {
    s.map_values(|c: char| ascii_lower(c))
}

/// Every character is a decimal digit (true of the empty sequence).
pub open spec fn all_digits(s: Seq<char>) -> bool {
    forall|i: int| 0 <= i < s.len() ==> is_digit(#[trigger] s[i])
}

/// `s` without one leading `+` or `-`.
pub open spec fn strip_sign(s: Seq<char>) -> Seq<char> {
    if s.len() > 0 && (s[0] == '+' || s[0] == '-') {
        s.drop_first()
    } else {
        s
    }
}

/// Digits with at most one `.`, and at least one digit.
pub open spec fn mantissa_ok(m: Seq<char>) -> bool {
    let d = first_index(m, '.');
    if d >= m.len() {
        m.len() > 0 && all_digits(m)
    } else {
        all_digits(m.take(d)) && all_digits(m.skip(d + 1)) && (d > 0 || m.len() > d + 1)
    }
}

/// A mantissa, then optionally `e`, an optional sign and one or more digits.
pub open spec fn number_ok(u: Seq<char>) -> bool {
    let e = first_index(u, 'e');
    if e >= u.len() {
        mantissa_ok(u)
    } else {
        mantissa_ok(u.take(e)) && strip_sign(u.skip(e + 1)).len() > 0 && all_digits(strip_sign(u.skip(e + 1)))
    }
}

/// Whether `s` reads as a floating-point number (`f64::from_str`): after
/// lower-casing ASCII letters, an optional sign, then `inf`, `infinity`,
/// `nan`, or a decimal number with optional fraction and exponent.
pub open spec fn float_ok(s: Seq<char>) -> bool {
    let u = strip_sign(lower_ascii(s));
    u == "inf"@ || u == "infinity"@ || u == "nan"@ || number_ok(u)
}

fn lower_char(c: char) -> (r: char)
    ensures
        r == ascii_lower(c),
{
    if 'A' <= c && c <= 'Z' {
        let cu: u32 = c as u32;
        let b: u8 = cu as u8;
        assert(b as u32 == cu) by (bit_vector)
            requires
                65 <= cu <= 90,
                b == cu as u8;
        ((b + 32) as char)
    } else {
        c
    }
}

fn sub_chars(v: &Vec<char>, a: usize, b: usize) -> (r: Vec<char>)
    requires
        a <= b <= v.len(),
    ensures
        r@ == v@.subrange(a as int, b as int),
{
    let mut r: Vec<char> = Vec::new();
    let mut i = a;
    while i < b
        invariant
            a <= i <= b <= v.len(),
            r@ == v@.subrange(a as int, i as int),
        decreases b - i,
    {
        r.push(v[i]);
        assert(v@.subrange(a as int, i + 1) == v@.subrange(a as int, i as int).push(v@[i as int]));
        i += 1;
    }
    r
}

fn digits_only(v: &Vec<char>) -> (r: bool)
    ensures
        r == all_digits(v@),
{
    let mut i: usize = 0;
    while i < v.len()
        invariant
            i <= v.len(),
            forall|j: int| 0 <= j < i ==> is_digit(#[trigger] v@[j]),
        decreases v.len() - i,
    {
        if !('0' <= v[i] && v[i] <= '9') {
            assert(!is_digit(v@[i as int]));
            return false;
        }
        i += 1;
    }
    true
}

fn strip_sign_chars(v: &Vec<char>) -> (r: Vec<char>)
    ensures
        r@ == strip_sign(v@),
{
    if v.len() > 0 && (v[0] == '+' || v[0] == '-') {
        let r = sub_chars(v, 1, v.len());
        assert(r@ == v@.drop_first());
        r
    } else {
        sub_chars(v, 0, v.len())
    }
}

fn mantissa_check(m: &Vec<char>) -> (r: bool)
    ensures
        r == mantissa_ok(m@),
{
    let d = crate::text::find_char(m, '.');
    if d >= m.len() {
        return m.len() > 0 && digits_only(m);
    }
    let a = sub_chars(m, 0, d);
    let b = sub_chars(m, d + 1, m.len());
    assert(a@ == m@.take(d as int));
    assert(b@ == m@.skip(d as int + 1));
    digits_only(&a) && digits_only(&b) && (d > 0 || m.len() > d + 1)
}

fn number_check(u: &Vec<char>) -> (r: bool)
    ensures
        r == number_ok(u@),
{
    let e = crate::text::find_char(u, 'e');
    if e >= u.len() {
        return mantissa_check(u);
    }
    let m = sub_chars(u, 0, e);
    let x = sub_chars(u, e + 1, u.len());
    assert(m@ == u@.take(e as int));
    assert(x@ == u@.skip(e as int + 1));
    let y = strip_sign_chars(&x);
    mantissa_check(&m) && y.len() > 0 && digits_only(&y)
}

/// Whether a column's text reads as a floating-point number.
pub fn float_text_ok(s: &str) -> (r: bool)
    ensures
        r == float_ok(s@),
{
    let v = to_chars(s);
    let mut low: Vec<char> = Vec::new();
    let mut i: usize = 0;
    while i < v.len()
        invariant
            i <= v.len(),
            v@ == s@,
            low@ == lower_ascii(v@.take(i as int)),
        decreases v.len() - i,
    {
        let c = lower_char(v[i]);
        low.push(c);
        assert(lower_ascii(v@.take(i + 1)) == lower_ascii(v@.take(i as int)).push(ascii_lower(v@[i as int])));
        i += 1;
    }
    assert(v@.take(i as int) == v@);
    let u = strip_sign_chars(&low);
    is_word(&u, "inf") || is_word(&u, "infinity") || is_word(&u, "nan") || number_check(&u)
}

/// The type a column is read as.
#[derive(Debug, Clone, Copy, PartialEq, Eq, Structural)]
pub enum FieldKind {
    Float,
    U64,
    U32,
    Bool,
}

/// A column whose text could not be read as its type.
#[derive(Debug)]
pub struct FieldError {
    pub kind: FieldKind,
    pub field: String,
    pub value: String,
}

/// The text of the type name in messages.
pub open spec fn kind_text(k: FieldKind) -> Seq<char> {
    match k {
        FieldKind::Float => "float"@,
        FieldKind::U64 => "u64"@,
        FieldKind::U32 => "u32"@,
        FieldKind::Bool => "boolean"@,
    }
}

impl FieldError {
    /// The error message: `invalid <type> for field '<field>': '<value>'`.
    pub fn message(&self) -> (r: String)
        ensures
            r@ == "invalid "@ + kind_text(self.kind) + " for field '"@ + self.field@ + "': '"@
                + self.value@ + "'"@,
    {
        let mut r = String::from_str("invalid ");
        match self.kind {
            FieldKind::Float => push_str(&mut r, "float"),
            FieldKind::U64 => push_str(&mut r, "u64"),
            FieldKind::U32 => push_str(&mut r, "u32"),
            FieldKind::Bool => push_str(&mut r, "boolean"),
        }
        push_str(&mut r, " for field '");
        push_str(&mut r, self.field.as_str());
        push_str(&mut r, "': '");
        push_str(&mut r, self.value.as_str());
        push_str(&mut r, "'");
        r
    }
}

/// Read a column's text as a `u64`.
pub fn parse_u64(s: &str, field: &str) -> (r: Result<u64, FieldError>)
    ensures
        r matches Ok(v) ==> parse_unsigned(s@, u64::MAX as nat) == Some(v as nat),
        r matches Err(e) ==> parse_unsigned(s@, u64::MAX as nat) is None && e.kind
            == FieldKind::U64 && e.field@ == field@ && e.value@ == s@,
{
    match parse_unsigned_text(s, u64::MAX) {
        Some(v) => Ok(v),
        None => Err(FieldError { kind: FieldKind::U64, field: field.to_owned(), value: s.to_owned() }),
    }
}

/// Read a column's text as a `u32`.
pub fn parse_u32(s: &str, field: &str) -> (r: Result<u32, FieldError>)
    ensures
        r matches Ok(v) ==> parse_unsigned(s@, u32::MAX as nat) == Some(v as nat),
        r matches Err(e) ==> parse_unsigned(s@, u32::MAX as nat) is None && e.kind
            == FieldKind::U32 && e.field@ == field@ && e.value@ == s@,
{
    match parse_unsigned_text(s, u32::MAX as u64) {
        Some(v) => Ok(v as u32),
        None => Err(FieldError { kind: FieldKind::U32, field: field.to_owned(), value: s.to_owned() }),
    }
}

/// Check that a column's text reads as a floating-point number.
pub fn check_float(s: &str, field: &str) -> (r: Result<(), FieldError>)
    ensures
        r is Ok <==> float_ok(s@),
        r matches Err(e) ==> e.kind == FieldKind::Float && e.field@ == field@ && e.value@ == s@,
{
    if float_text_ok(s) {
        Ok(())
    } else {
        Err(FieldError { kind: FieldKind::Float, field: field.to_owned(), value: s.to_owned() })
    }
}

/// Read a column's text as a boolean, ignoring case.
pub fn parse_bool(s: &str, field: &str) -> (r: Result<bool, FieldError>)
    ensures
        r matches Ok(b) ==> bool_word(unicode_lowercase(s@)) == Some(b),
        r matches Err(e) ==> bool_word(unicode_lowercase(s@)) is None && e.kind
            == FieldKind::Bool && e.field@ == field@ && e.value@ == s@,
{
    let lowered = to_lowercase(s);
    match bool_from_lowered(lowered.as_str()) {
        Some(b) => Ok(b),
        None => Err(FieldError { kind: FieldKind::Bool, field: field.to_owned(), value: s.to_owned() }),
    }
}


// ----------------------------------------------------------------------------
// Rows
// ----------------------------------------------------------------------------

/// One benchmark run, column by column. Measurements with a fractional part
/// (`ram_class_gb`, the parameter counts, throughput, latencies, memory and
/// CPU figures) are kept as their trimmed text, which is checked to read as
/// a floating-point number.
#[derive(Debug, Clone)]
pub struct BenchmarkRow {
    pub run_id: String,
    pub date_utc: String,
    pub host_id: String,
    pub ram_class_gb: String,
    pub cpu_model: String,
    pub backend: String,
    pub model_name: String,
    pub model_arch: String,
    pub total_params_b: String,
    pub active_params_b: String,
    pub quantization: String,
    pub context_tokens: u64,
    pub output_tokens: u64,
    pub concurrency: u32,
    pub compression_profile: String,
    pub compression_codec: String,
    pub compression_target_pct: u32,
    pub zswap_enabled: bool,
    pub tokens_per_sec: String,
    pub ttft_ms: String,
    pub p95_token_latency_ms: String,
    pub peak_rss_gb: String,
    pub swap_used_gb: String,
    pub psi_mem_some_avg10: String,
    pub psi_mem_full_avg10: String,
    pub cpu_avg_pct: String,
    pub cpu_peak_pct: String,
    pub oom_events: u32,
    pub run_success: bool,
    pub notes: String,
}

/// The number of columns a row must have.
pub const COLUMNS: usize = 30;

/// The columns that hold numbers with a fractional part.
pub open spec fn float_column(c: int) -> bool {
    c == 3 || c == 8 || c == 9 || (18 <= c && c <= 26)
}

/// Whether column `c` of the fields reads as its type (text columns always do).
pub open spec fn column_ok(f: Seq<Seq<char>>, c: int) -> bool {
    if float_column(c) {
        float_ok(f[c])
    } else if c == 11 || c == 12 {
        parse_unsigned(f[c], u64::MAX as nat) is Some
    } else if c == 13 || c == 16 || c == 27 {
        parse_unsigned(f[c], u32::MAX as nat) is Some
    } else if c == 17 || c == 28 {
        bool_word(unicode_lowercase(f[c])) is Some
    } else {
        true
    }
}

/// The first typed column, left to right, whose text does not read as its
/// type; `30` when every column reads.
pub open spec fn first_bad_column(f: Seq<Seq<char>>) -> int {
    if !column_ok(f, 3) {
        3
    } else if !column_ok(f, 8) {
        8
    } else if !column_ok(f, 9) {
        9
    } else if !column_ok(f, 11) {
        11
    } else if !column_ok(f, 12) {
        12
    } else if !column_ok(f, 13) {
        13
    } else if !column_ok(f, 16) {
        16
    } else if !column_ok(f, 17) {
        17
    } else if !column_ok(f, 18) {
        18
    } else if !column_ok(f, 19) {
        19
    } else if !column_ok(f, 20) {
        20
    } else if !column_ok(f, 21) {
        21
    } else if !column_ok(f, 22) {
        22
    } else if !column_ok(f, 23) {
        23
    } else if !column_ok(f, 24) {
        24
    } else if !column_ok(f, 25) {
        25
    } else if !column_ok(f, 26) {
        26
    } else if !column_ok(f, 27) {
        27
    } else if !column_ok(f, 28) {
        28
    } else {
        30
    }
}

/// The fields make a row: at least 30 of them, every typed column readable
/// as its type.
pub open spec fn row_ok(f: Seq<Seq<char>>) -> bool {
    f.len() >= 30 && first_bad_column(f) == 30
}

/// The name of a typed column.
pub open spec fn column_name(c: int) -> Seq<char> {
    if c == 3 {
        "ram_class_gb"@
    } else if c == 8 {
        "total_params_b"@
    } else if c == 9 {
        "active_params_b"@
    } else if c == 18 {
        "tokens_per_sec"@
    } else if c == 19 {
        "ttft_ms"@
    } else if c == 20 {
        "p95_token_latency_ms"@
    } else if c == 21 {
        "peak_rss_gb"@
    } else if c == 22 {
        "swap_used_gb"@
    } else if c == 23 {
        "psi_mem_some_avg10"@
    } else if c == 24 {
        "psi_mem_full_avg10"@
    } else if c == 25 {
        "cpu_avg_pct"@
    } else if c == 26 {
        "cpu_peak_pct"@
    } else if c == 11 {
        "context_tokens"@
    } else if c == 12 {
        "output_tokens"@
    } else if c == 13 {
        "concurrency"@
    } else if c == 16 {
        "compression_target_pct"@
    } else if c == 17 {
        "zswap_enabled"@
    } else if c == 27 {
        "oom_events"@
    } else {
        "run_success"@
    }
}

/// The type a typed column is read as.
pub open spec fn column_kind(c: int) -> FieldKind {
    if float_column(c) {
        FieldKind::Float
    } else if c == 11 || c == 12 {
        FieldKind::U64
    } else if c == 17 || c == 28 {
        FieldKind::Bool
    } else {
        FieldKind::U32
    }
}

/// The row holds the fields `f`: text columns as they are, typed columns
/// as the values their text reads as.
pub open spec fn row_matches(row: BenchmarkRow, f: Seq<Seq<char>>) -> bool {
    &&& row.run_id@ == f[0]
    &&& row.date_utc@ == f[1]
    &&& row.host_id@ == f[2]
    &&& row.ram_class_gb@ == f[3]
    &&& row.cpu_model@ == f[4]
    &&& row.backend@ == f[5]
    &&& row.model_name@ == f[6]
    &&& row.model_arch@ == f[7]
    &&& row.total_params_b@ == f[8]
    &&& row.active_params_b@ == f[9]
    &&& row.quantization@ == f[10]
    &&& parse_unsigned(f[11], u64::MAX as nat) == Some(row.context_tokens as nat)
    &&& parse_unsigned(f[12], u64::MAX as nat) == Some(row.output_tokens as nat)
    &&& parse_unsigned(f[13], u32::MAX as nat) == Some(row.concurrency as nat)
    &&& row.compression_profile@ == f[14]
    &&& row.compression_codec@ == f[15]
    &&& parse_unsigned(f[16], u32::MAX as nat) == Some(row.compression_target_pct as nat)
    &&& bool_word(unicode_lowercase(f[17])) == Some(row.zswap_enabled)
    &&& row.tokens_per_sec@ == f[18]
    &&& row.ttft_ms@ == f[19]
    &&& row.p95_token_latency_ms@ == f[20]
    &&& row.peak_rss_gb@ == f[21]
    &&& row.swap_used_gb@ == f[22]
    &&& row.psi_mem_some_avg10@ == f[23]
    &&& row.psi_mem_full_avg10@ == f[24]
    &&& row.cpu_avg_pct@ == f[25]
    &&& row.cpu_peak_pct@ == f[26]
    &&& parse_unsigned(f[27], u32::MAX as nat) == Some(row.oom_events as nat)
    &&& bool_word(unicode_lowercase(f[28])) == Some(row.run_success)
    &&& row.notes@ == f[29]
}

/// Why a data row was refused.
#[derive(Debug)]
pub enum RowError {
    /// Fewer than 30 fields.
    TooFewFields { found: usize },
    /// A typed column whose text does not read as its type.
    Field { column: usize, error: FieldError },
}

impl RowError {
    /// The error message.
    pub fn message(&self) -> (r: String)
        ensures
            self matches RowError::TooFewFields { found } ==> r@ == "expected at least 30 fields, found "@
                + crate::text::decimal(found as nat),
            self matches RowError::Field { error, .. } ==> r@ == "invalid "@ + kind_text(error.kind)
                + " for field '"@ + error.field@ + "': '"@ + error.value@ + "'"@,
    {
        match self {
            RowError::TooFewFields { found } => {
                let mut r = String::from_str("expected at least 30 fields, found ");
                crate::text::push_decimal(&mut r, *found as u128);
                r
            },
            RowError::Field { error, .. } => error.message(),
        }
    }
}

/// Whether a row result's refusal is the one the fields call for.
pub open spec fn row_error_fits(e: RowError, f: Seq<Seq<char>>) -> bool {
    match e {
        RowError::TooFewFields { found } => f.len() < 30 && found == f.len(),
        RowError::Field { column, error } => {
            &&& f.len() >= 30
            &&& column == first_bad_column(f)
            &&& column < 30
            &&& error.kind == column_kind(column as int)
            &&& error.field@ == column_name(column as int)
            &&& error.value@ == f[column as int]
        },
    }
}

/// Read the fields of one data row.
pub fn parse_fields(f: &Vec<String>) -> (r: Result<BenchmarkRow, RowError>)
    ensures
        r is Ok <==> row_ok(views(f@)),
        r matches Ok(row) ==> row_matches(row, views(f@)),
        r matches Err(e) ==> row_error_fits(e, views(f@)),
{
    let ghost fv = views(f@);
    if f.len() < COLUMNS {
        return Err(RowError::TooFewFields { found: f.len() });
    }
    assert(forall|i: int| 0 <= i < f.len() ==> #[trigger] fv[i] == f@[i]@);
    match check_float(f[3].as_str(), "ram_class_gb") {
        Ok(()) => {},
        Err(e) => { return Err(RowError::Field { column: 3, error: e }); },
    }
    match check_float(f[8].as_str(), "total_params_b") {
        Ok(()) => {},
        Err(e) => { return Err(RowError::Field { column: 8, error: e }); },
    }
    match check_float(f[9].as_str(), "active_params_b") {
        Ok(()) => {},
        Err(e) => { return Err(RowError::Field { column: 9, error: e }); },
    }
    let context_tokens = match parse_u64(f[11].as_str(), "context_tokens") {
        Ok(v) => v,
        Err(e) => { return Err(RowError::Field { column: 11, error: e }); },
    };
    let output_tokens = match parse_u64(f[12].as_str(), "output_tokens") {
        Ok(v) => v,
        Err(e) => { return Err(RowError::Field { column: 12, error: e }); },
    };
    let concurrency = match parse_u32(f[13].as_str(), "concurrency") {
        Ok(v) => v,
        Err(e) => { return Err(RowError::Field { column: 13, error: e }); },
    };
    let compression_target_pct = match parse_u32(f[16].as_str(), "compression_target_pct") {
        Ok(v) => v,
        Err(e) => { return Err(RowError::Field { column: 16, error: e }); },
    };
    let zswap_enabled = match parse_bool(f[17].as_str(), "zswap_enabled") {
        Ok(v) => v,
        Err(e) => { return Err(RowError::Field { column: 17, error: e }); },
    };
    match check_float(f[18].as_str(), "tokens_per_sec") {
        Ok(()) => {},
        Err(e) => { return Err(RowError::Field { column: 18, error: e }); },
    }
    match check_float(f[19].as_str(), "ttft_ms") {
        Ok(()) => {},
        Err(e) => { return Err(RowError::Field { column: 19, error: e }); },
    }
    match check_float(f[20].as_str(), "p95_token_latency_ms") {
        Ok(()) => {},
        Err(e) => { return Err(RowError::Field { column: 20, error: e }); },
    }
    match check_float(f[21].as_str(), "peak_rss_gb") {
        Ok(()) => {},
        Err(e) => { return Err(RowError::Field { column: 21, error: e }); },
    }
    match check_float(f[22].as_str(), "swap_used_gb") {
        Ok(()) => {},
        Err(e) => { return Err(RowError::Field { column: 22, error: e }); },
    }
    match check_float(f[23].as_str(), "psi_mem_some_avg10") {
        Ok(()) => {},
        Err(e) => { return Err(RowError::Field { column: 23, error: e }); },
    }
    match check_float(f[24].as_str(), "psi_mem_full_avg10") {
        Ok(()) => {},
        Err(e) => { return Err(RowError::Field { column: 24, error: e }); },
    }
    match check_float(f[25].as_str(), "cpu_avg_pct") {
        Ok(()) => {},
        Err(e) => { return Err(RowError::Field { column: 25, error: e }); },
    }
    match check_float(f[26].as_str(), "cpu_peak_pct") {
        Ok(()) => {},
        Err(e) => { return Err(RowError::Field { column: 26, error: e }); },
    }
    let oom_events = match parse_u32(f[27].as_str(), "oom_events") {
        Ok(v) => v,
        Err(e) => { return Err(RowError::Field { column: 27, error: e }); },
    };
    let run_success = match parse_bool(f[28].as_str(), "run_success") {
        Ok(v) => v,
        Err(e) => { return Err(RowError::Field { column: 28, error: e }); },
    };
    Ok(BenchmarkRow {
        run_id: f[0].clone(),
        date_utc: f[1].clone(),
        host_id: f[2].clone(),
        ram_class_gb: f[3].clone(),
        cpu_model: f[4].clone(),
        backend: f[5].clone(),
        model_name: f[6].clone(),
        model_arch: f[7].clone(),
        total_params_b: f[8].clone(),
        active_params_b: f[9].clone(),
        quantization: f[10].clone(),
        context_tokens,
        output_tokens,
        concurrency,
        compression_profile: f[14].clone(),
        compression_codec: f[15].clone(),
        compression_target_pct,
        zswap_enabled,
        tokens_per_sec: f[18].clone(),
        ttft_ms: f[19].clone(),
        p95_token_latency_ms: f[20].clone(),
        peak_rss_gb: f[21].clone(),
        swap_used_gb: f[22].clone(),
        psi_mem_some_avg10: f[23].clone(),
        psi_mem_full_avg10: f[24].clone(),
        cpu_avg_pct: f[25].clone(),
        cpu_peak_pct: f[26].clone(),
        oom_events,
        run_success,
        notes: f[29].clone(),
    })
}


// ----------------------------------------------------------------------------
// The whole file
// ----------------------------------------------------------------------------

/// A line without the carriage return that preceded its line feed.
pub open spec fn strip_cr(l: Seq<char>) -> Seq<char> {
    if l.len() > 0 && l.last() == '\r' {
        l.drop_last()
    } else {
        l
    }
}

/// The lines of a text, as `str::lines` yields them: split at each `\n`,
/// a `\r` right before the `\n` dropped, and no empty line after a final
/// `\n`.
pub open spec fn text_lines(s: Seq<char>) -> Seq<Seq<char>>
    decreases s.len(),
{
    if s.len() == 0 {
        seq![]
    } else {
        let k = first_index(s, '\n');
        if 0 <= k < s.len() {
            seq![strip_cr(s.take(k))] + text_lines(s.skip(k + 1))
        } else {
            seq![s]
        }
    }
}

/// Split a text into its lines (`str::lines`).
pub fn split_lines(content: &str) -> (r: Vec<String>)
    ensures
        views(r@) == text_lines(content@),
{
    let v = to_chars(content);
    let mut out: Vec<String> = Vec::new();
    let mut p: usize = 0;
    proof {
        assert(v@.skip(0) == v@);
        assert(views(out@) + text_lines(v@.skip(0)) == text_lines(v@));
    }
    while p < v.len()
        invariant
            p <= v.len(),
            v@ == content@,
            views(out@) + text_lines(v@.skip(p as int)) == text_lines(content@),
        decreases v.len() - p,
    {
        let ghost rest = v@.skip(p as int);
        let mut j: usize = p;
        while j < v.len() && v[j] != '\n'
            invariant
                p <= j <= v.len(),
                rest == v@.skip(p as int),
                forall|k: int| p <= k < j ==> v@[k] != '\n',
            decreases v.len() - j,
        {
            j += 1;
        }
        proof {
            assert forall|k: int| 0 <= k < j - p implies rest[k] != '\n' by {
                assert(rest[k] == v@[p + k]);
            }
            if j < v.len() {
                assert(rest[j - p] == v@[j as int]);
            }
            lemma_first_index_unique(rest, '\n', j - p);
        }
        let ghost before = views(out@);
        if j < v.len() {
            let mut end = j;
            if end > p && v[end - 1] == '\r' {
                end = end - 1;
            }
            let line = string_from_range(&v, p, end);
            out.push(line);
            proof {
                let t = rest.take(j - p);
                assert(t == v@.subrange(p as int, j as int));
                assert(strip_cr(t) == v@.subrange(p as int, end as int));
                assert(rest.skip(j - p + 1) == v@.skip(j + 1));
                assert(views(out@) == before.push(strip_cr(t)));
                assert(text_lines(rest) == seq![strip_cr(t)] + text_lines(v@.skip(j + 1)));
                assert(views(out@) + text_lines(v@.skip(j + 1)) == before + text_lines(rest));
            }
            p = j + 1;
        } else {
            let line = string_from_range(&v, p, j);
            out.push(line);
            proof {
                assert(rest == v@.subrange(p as int, j as int));
                assert(views(out@) == before.push(rest));
                assert(text_lines(rest) == seq![rest]);
                assert(v@.skip(j as int).len() == 0);
                assert(text_lines(v@.skip(j as int)) == Seq::<Seq<char>>::empty());
                assert(views(out@) + text_lines(v@.skip(j as int)) == before + text_lines(rest));
            }
            p = j;
        }
    }
    proof {
        assert(v@.skip(p as int).len() == 0);
        assert(views(out@) + Seq::<Seq<char>>::empty() == views(out@));
    }
    out
}


/// Why a CSV text was refused.
#[derive(Debug)]
pub enum CsvError {
    /// There is no line at all.
    Empty,
    /// The header has fewer than 30 columns.
    HeaderColumns { found: usize },
    /// The header's first column is not `run_id`.
    HeaderFirstColumn { first: String },
    /// A data row was refused; `line` is its 1-based line number.
    Row { line: usize, error: RowError },
}

impl CsvError {
    /// The error message.
    pub fn message(&self) -> (r: String)
        ensures
            *self is Empty ==> r@ == "CSV is empty; expected a header row"@,
            self matches CsvError::HeaderColumns { found } ==> r@
                == "expected at least 30 columns in header, found "@ + decimal(found as nat),
            self matches CsvError::HeaderFirstColumn { first } ==> r@
                == "first column must be 'run_id', found '"@ + first@ + "'"@,
            self matches CsvError::Row { line, .. } ==> r@ == "failed to parse CSV row "@ + decimal(
                line as nat,
            ),
    {
        match self {
            CsvError::Empty => String::from_str("CSV is empty; expected a header row"),
            CsvError::HeaderColumns { found } => {
                let mut r = String::from_str("expected at least 30 columns in header, found ");
                push_decimal(&mut r, *found as u128);
                r
            },
            CsvError::HeaderFirstColumn { first } => {
                let mut r = String::from_str("first column must be 'run_id', found '");
                push_str(&mut r, first.as_str());
                push_str(&mut r, "'");
                r
            },
            CsvError::Row { line, .. } => {
                let mut r = String::from_str("failed to parse CSV row ");
                push_decimal(&mut r, *line as u128);
                r
            },
        }
    }
}

/// The header names at least 30 columns, the first of them `run_id`.
pub open spec fn header_ok(h: Seq<char>) -> bool {
    csv_fields(h).len() >= 30 && csv_fields(h)[0] == "run_id"@
}

/// Check the header row.
pub fn validate_header(header: &str) -> (r: Result<(), CsvError>)
    ensures
        r is Ok <==> header_ok(header@),
        r matches Err(e) ==> header_error_fits(e, header@),
{
    let fields = split_csv_row(header);
    proof {
        assert(views(fields@).len() == fields@.len());
    }
    if fields.len() < COLUMNS {
        return Err(CsvError::HeaderColumns { found: fields.len() });
    }
    assert(views(fields@)[0] == fields@[0]@);
    let first = to_chars(fields[0].as_str());
    if !is_word(&first, "run_id") {
        return Err(CsvError::HeaderFirstColumn { first: fields[0].clone() });
    }
    Ok(())
}

/// Whether a refusal of the header is the one its fields call for.
pub open spec fn header_error_fits(e: CsvError, h: Seq<char>) -> bool {
    match e {
        CsvError::HeaderColumns { found } => csv_fields(h).len() < 30 && found == csv_fields(h).len(),
        CsvError::HeaderFirstColumn { first } => csv_fields(h).len() >= 30 && csv_fields(h)[0]
            != "run_id"@ && first@ == csv_fields(h)[0],
        _ => false,
    }
}

/// The fields of a data line (the line trimmed first).
pub open spec fn line_fields(l: Seq<char>) -> Seq<Seq<char>> {
    csv_fields(trim(l))
}

/// A data line that is not blank and does not make a row.
pub open spec fn line_bad(l: Seq<char>) -> bool {
    trim(l).len() > 0 && !row_ok(line_fields(l))
}

/// The index of the first refused data line (the header at index 0 is not
/// one), or -1 when there is none.
pub open spec fn first_bad_line(ls: Seq<Seq<char>>) -> int
    decreases ls.len(),
{
    if ls.len() <= 1 {
        -1
    } else {
        let b = first_bad_line(ls.drop_last());
        if b >= 0 {
            b
        } else if line_bad(ls.last()) {
            ls.len() - 1
        } else {
            -1
        }
    }
}

/// The fields of the non-blank data lines, in order.
pub open spec fn data_fields(ls: Seq<Seq<char>>) -> Seq<Seq<Seq<char>>>
    decreases ls.len(),
{
    if ls.len() <= 1 {
        seq![]
    } else {
        let p = data_fields(ls.drop_last());
        if trim(ls.last()).len() > 0 {
            p.push(line_fields(ls.last()))
        } else {
            p
        }
    }
}

/// The text is accepted: a header that passes, then data lines that are
/// blank or make rows.
pub open spec fn csv_ok(ls: Seq<Seq<char>>) -> bool {
    ls.len() > 0 && header_ok(ls[0]) && first_bad_line(ls) == -1
}

/// Whether a refusal of the text is the one its lines call for: the first
/// fault in the order empty text, header, data lines top to bottom.
pub open spec fn csv_error_fits(e: CsvError, ls: Seq<Seq<char>>) -> bool {
    match e {
        CsvError::Empty => ls.len() == 0,
        CsvError::Row { line, error } => {
            &&& ls.len() > 0
            &&& header_ok(ls[0])
            &&& first_bad_line(ls) >= 1
            &&& line == first_bad_line(ls) + 1
            &&& row_error_fits(error, line_fields(ls[first_bad_line(ls)]))
        },
        _ => ls.len() > 0 && header_error_fits(e, ls[0]),
    }
}

/// Parse benchmark runs from CSV text: a header row, then one run per
/// non-blank line. Fields are comma-separated and may be quoted.
pub fn parse_benchmark_csv(content: &str) -> (r: Result<Vec<BenchmarkRow>, CsvError>)
    ensures
        r is Ok <==> csv_ok(text_lines(content@)),
        r matches Ok(rows) ==> rows.len() == data_fields(text_lines(content@)).len() && forall|k: int|
            0 <= k < rows.len() ==> row_matches(#[trigger] rows@[k], data_fields(text_lines(content@))[k]),
        r matches Err(e) ==> csv_error_fits(e, text_lines(content@)),
{
    let lines = split_lines(content);
    let ghost ls = text_lines(content@);
    assert(forall|i: int| 0 <= i < lines.len() ==> #[trigger] ls[i] == lines@[i]@);
    if lines.len() == 0 {
        return Err(CsvError::Empty);
    }
    match validate_header(lines[0].as_str()) {
        Ok(()) => {},
        Err(e) => { return Err(e); },
    }
    let mut rows: Vec<BenchmarkRow> = Vec::new();
    let mut i: usize = 1;
    proof {
        assert(first_bad_line(ls.take(1)) == -1);
        assert(data_fields(ls.take(1)) == Seq::<Seq<Seq<char>>>::empty());
    }
    while i < lines.len()
        invariant
            1 <= i <= lines.len(),
            ls == text_lines(content@),
            ls.len() == lines.len(),
            header_ok(ls[0]),
            forall|j: int| 0 <= j < lines.len() ==> #[trigger] ls[j] == lines@[j]@,
            first_bad_line(ls.take(i as int)) == -1,
            rows.len() == data_fields(ls.take(i as int)).len(),
            forall|k: int| 0 <= k < rows.len() ==> row_matches(#[trigger] rows@[k], data_fields(ls.take(i as int))[k]),
        decreases lines.len() - i,
    {
        let ghost pre = ls.take(i as int);
        let ghost next = ls.take(i + 1);
        assert(next.drop_last() == pre);
        assert(next.last() == ls[i as int]);
        let v = to_chars(lines[i].as_str());
        let (a, b) = trim_bounds(&v);
        if a < b {
            let t = string_from_range(&v, a, b);
            let f = split_csv_row(t.as_str());
            match parse_fields(&f) {
                Ok(row) => {
                    rows.push(row);
                    assert(data_fields(next) == data_fields(pre).push(line_fields(ls[i as int])));
                },
                Err(e) => {
                    assert(first_bad_line(next) == i);
                    proof {
                        lemma_first_bad_line_extend(ls, i as int + 1);
                    }
                    return Err(CsvError::Row { line: i + 1, error: e });
                },
            }
        } else {
            assert(data_fields(next) == data_fields(pre));
        }
        i += 1;
    }
    assert(ls.take(i as int) == ls);
    Ok(rows)
}

/// Once a line is the first refused one, longer prefixes keep it first.
proof fn lemma_first_bad_line_extend(ls: Seq<Seq<char>>, n: int)
    requires
        1 <= n <= ls.len(),
        first_bad_line(ls.take(n)) >= 0,
    ensures
        first_bad_line(ls) == first_bad_line(ls.take(n)),
    decreases ls.len() - n,
{
    if n < ls.len() {
        let next = ls.take(n + 1);
        assert(next.drop_last() == ls.take(n));
        lemma_first_bad_line_extend(ls, n + 1);
    } else {
        assert(ls.take(n) == ls);
    }
}


// ----------------------------------------------------------------------------
// Selecting runs
// ----------------------------------------------------------------------------

/// Which runs to select; a criterion left at `None` (or `false`) selects all.
#[derive(Debug)]
pub struct RunFilter {
    pub model_name: Option<String>,
    pub compression_profile: Option<String>,
    pub context_tokens: Option<u64>,
    pub success_only: bool,
}

impl Default for RunFilter {
    fn default() -> (r: RunFilter)
        ensures
            r.model_name is None,
            r.compression_profile is None,
            r.context_tokens is None,
            !r.success_only,
    {
        RunFilter { model_name: None, compression_profile: None, context_tokens: None, success_only: false }
    }
}

/// The run meets every criterion of the filter.
pub open spec fn run_selected(f: RunFilter, row: BenchmarkRow) -> bool {
    &&& (f.success_only ==> row.run_success)
    &&& (f.model_name matches Some(n) ==> row.model_name@ == n@)
    &&& (f.compression_profile matches Some(p) ==> row.compression_profile@ == p@)
    &&& (f.context_tokens matches Some(c) ==> row.context_tokens == c)
}

/// The runs that meet the filter, in their order.
pub open spec fn selected_runs(rows: Seq<BenchmarkRow>, f: RunFilter) -> Seq<BenchmarkRow>
    decreases rows.len(),
{
    if rows.len() == 0 {
        seq![]
    } else {
        let p = selected_runs(rows.drop_last(), f);
        if run_selected(f, rows.last()) {
            p.push(rows.last())
        } else {
            p
        }
    }
}

fn same_text(a: &String, b: &String) -> (r: bool)
    ensures
        r == (a@ == b@),
{
    chars_eq(&to_chars(a.as_str()), &to_chars(b.as_str()))
}

fn meets(filter: &RunFilter, row: &BenchmarkRow) -> (r: bool)
    ensures
        r == run_selected(*filter, *row),
{
    if filter.success_only && !row.run_success {
        return false;
    }
    match &filter.model_name {
        Some(name) => {
            if !same_text(&row.model_name, name) {
                return false;
            }
        },
        None => {},
    }
    match &filter.compression_profile {
        Some(profile) => {
            if !same_text(&row.compression_profile, profile) {
                return false;
            }
        },
        None => {},
    }
    match filter.context_tokens {
        Some(ctx) => {
            if row.context_tokens != ctx {
                return false;
            }
        },
        None => {},
    }
    true
}

/// Select the runs that meet the filter, keeping their order.
pub fn filter_runs<'a>(records: &'a [BenchmarkRow], filter: &RunFilter) -> (r: Vec<&'a BenchmarkRow>)
    ensures
        r.len() == selected_runs(records@, *filter).len(),
        forall|k: int| 0 <= k < r.len() ==> *#[trigger] r@[k] == selected_runs(records@, *filter)[k],
        filter.success_only ==> forall|k: int| 0 <= k < r.len() ==> (#[trigger] r@[k]).run_success,
{
    let mut out: Vec<&'a BenchmarkRow> = Vec::new();
    let mut i: usize = 0;
    assert(records@.take(0) == Seq::<BenchmarkRow>::empty());
    while i < records.len()
        invariant
            i <= records.len(),
            out.len() == selected_runs(records@.take(i as int), *filter).len(),
            forall|k: int| 0 <= k < out.len() ==> *#[trigger] out@[k] == selected_runs(records@.take(i as int), *filter)[k],
        decreases records.len() - i,
    {
        let ghost pre = records@.take(i as int);
        let ghost next = records@.take(i + 1);
        assert(next.drop_last() == pre);
        assert(next.last() == records@[i as int]);
        let row = &records[i];
        if meets(filter, row) {
            out.push(row);
        }
        i += 1;
    }
    assert(records@.take(i as int) == records@);
    proof {
        law_selection_by_field(records@, *filter);
        assert forall|k: int| 0 <= k < out.len() implies filter.success_only ==> (#[trigger] out@[k]).run_success by {
            let r = selected_runs(records@, *filter)[k];
            assert(*out@[k] == r);
        }
    }
    out
}

/// The selection, criterion by criterion: every selected run succeeded when
/// only successful runs are asked for, and has the asked model name,
/// compression profile and context size; every run that has all of these
/// is selected.
pub proof fn law_selection_by_field(rows: Seq<BenchmarkRow>, f: RunFilter)
    ensures
        forall|k: int| 0 <= k < selected_runs(rows, f).len() ==> {
            let r = #[trigger] selected_runs(rows, f)[k];
            &&& (f.success_only ==> r.run_success)
            &&& (f.model_name matches Some(n) ==> r.model_name@ == n@)
            &&& (f.compression_profile matches Some(p) ==> r.compression_profile@ == p@)
            &&& (f.context_tokens matches Some(c) ==> r.context_tokens == c)
        },
        forall|i: int| 0 <= i < rows.len() && (f.success_only ==> (#[trigger] rows[i]).run_success)
            && (f.model_name matches Some(n) ==> rows[i].model_name@ == n@)
            && (f.compression_profile matches Some(p) ==> rows[i].compression_profile@ == p@)
            && (f.context_tokens matches Some(c) ==> rows[i].context_tokens == c)
            ==> selected_runs(rows, f).contains(rows[i]),
{
    law_selection_exact(rows, f);
    assert forall|k: int| 0 <= k < selected_runs(rows, f).len() implies {
        let r = #[trigger] selected_runs(rows, f)[k];
        &&& (f.success_only ==> r.run_success)
        &&& (f.model_name matches Some(n) ==> r.model_name@ == n@)
        &&& (f.compression_profile matches Some(p) ==> r.compression_profile@ == p@)
        &&& (f.context_tokens matches Some(c) ==> r.context_tokens == c)
    } by {
        assert(run_selected(f, selected_runs(rows, f)[k]));
    }
    assert forall|i: int| 0 <= i < rows.len() && (f.success_only ==> (#[trigger] rows[i]).run_success)
        && (f.model_name matches Some(n) ==> rows[i].model_name@ == n@)
        && (f.compression_profile matches Some(p) ==> rows[i].compression_profile@ == p@)
        && (f.context_tokens matches Some(c) ==> rows[i].context_tokens == c)
        implies selected_runs(rows, f).contains(rows[i]) by {
        assert(run_selected(f, rows[i]));
    }
}

/// Every selected run meets the filter, and every run that meets it is
/// selected: the selection is exactly the runs that meet the filter.
pub proof fn law_selection_exact(rows: Seq<BenchmarkRow>, f: RunFilter)
    ensures
        forall|k: int| 0 <= k < selected_runs(rows, f).len() ==> run_selected(f, #[trigger] selected_runs(rows, f)[k]),
        forall|k: int| 0 <= k < selected_runs(rows, f).len() ==> rows.contains(#[trigger] selected_runs(rows, f)[k]),
        forall|i: int| 0 <= i < rows.len() && run_selected(f, #[trigger] rows[i]) ==> selected_runs(rows, f).contains(rows[i]),
    decreases rows.len(),
{
    if rows.len() > 0 {
        let p = rows.drop_last();
        law_selection_exact(p, f);
        let sp = selected_runs(p, f);
        let s = selected_runs(rows, f);
        assert forall|k: int| 0 <= k < s.len() implies rows.contains(#[trigger] s[k]) by {
            if k < sp.len() {
                assert(s[k] == sp[k]);
                let j = choose|j: int| 0 <= j < p.len() && p[j] == sp[k];
                assert(rows[j] == p[j]);
            } else {
                assert(s[k] == rows[rows.len() - 1]);
            }
        }
        assert forall|i: int| 0 <= i < rows.len() && run_selected(f, #[trigger] rows[i]) implies s.contains(rows[i]) by {
            if i < p.len() {
                assert(rows[i] == p[i]);
                let k = choose|k: int| 0 <= k < sp.len() && sp[k] == p[i];
                assert(s[k] == sp[k]);
            } else {
                assert(s[s.len() - 1] == rows[i]);
            }
        }
        assert forall|k: int| 0 <= k < s.len() implies run_selected(f, #[trigger] s[k]) by {
            if k < sp.len() {
                assert(s[k] == sp[k]);
            }
        }
    }
}

} // verus!
