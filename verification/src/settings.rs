//! Parsing and validating a small `key = value` settings text.
//!
//! The grammar is the module's own: one setting per line, `#` starts a
//! comment line, blank lines are skipped, spaces and tabs around keys and
//! values are ignored, an unknown key is ignored, a repeated key keeps its
//! last value, and numeric values are plain decimal digits.  The whole
//! grammar is written down as spec functions over character sequences, and
//! [`parse_config`] is proved to decide it exactly.

use vstd::prelude::*;
use vstd::std_specs::iter::IteratorSpec;

verus! {

broadcast use vstd::string::group_string_axioms;

/// Relies on std's `String::push`: appends the character onto the end of
/// this string.
pub assume_specification[ String::push ](s: &mut String, c: char)
    ensures
        final(s)@ == old(s)@.push(c),
;

/// A parsed server configuration.
#[derive(Debug)]
pub struct ServerConfig {
    pub host: String,
    pub port: u16,
    pub max_connections: u32,
    pub timeout_seconds: u64,
}

/// Why a settings text was refused.
#[derive(Debug)]
pub enum ConfigError {
    /// A non-comment line holds no `=`; the message names the line.
    InvalidFormat(String),
    /// A required key never appeared; the message names the key.
    MissingField(String),
    /// A numeric value does not fit its field; the message names the value.
    InvalidValue { field: String, message: String },
}

/// Horizontal whitespace (and a stray carriage return) around keys,
/// values and lines.
pub open spec fn is_blank(c: char) -> bool {
    c == ' ' || c == '\t' || c == '\r'
}

/// The sequence without its leading blanks.
pub open spec fn trim_front_spec(s: Seq<char>) -> Seq<char>
    decreases s.len(),
{
    if s.len() > 0 && is_blank(s.first()) {
        trim_front_spec(s.drop_first())
    } else {
        s
    }
}

/// The sequence without its trailing blanks.
pub open spec fn trim_back_spec(s: Seq<char>) -> Seq<char>
    decreases s.len(),
{
    if s.len() > 0 && is_blank(s.last()) {
        trim_back_spec(s.drop_last())
    } else {
        s
    }
}

/// The sequence without leading or trailing blanks.
pub open spec fn trim_spec(s: Seq<char>) -> Seq<char> {
    trim_back_spec(trim_front_spec(s))
}

/// Everything before the first occurrence of `c`; all of `s` if `c` does
/// not occur.
pub open spec fn before_char(s: Seq<char>, c: char) -> Seq<char>
    decreases s.len(),
{
    if s.len() == 0 {
        Seq::empty()
    } else if s.first() == c {
        Seq::empty()
    } else {
        seq![s.first()] + before_char(s.drop_first(), c)
    }
}

/// Everything after the first occurrence of `c`; empty if `c` does not
/// occur.
pub open spec fn after_char(s: Seq<char>, c: char) -> Seq<char>
    decreases s.len(),
{
    if s.len() == 0 {
        Seq::empty()
    } else if s.first() == c {
        s.drop_first()
    } else {
        after_char(s.drop_first(), c)
    }
}

/// A nonempty run of decimal digits.
pub open spec fn is_digits(s: Seq<char>) -> bool {
    s.len() > 0 && forall|i: int|
        0 <= i < s.len() ==> '0' as u32 <= (#[trigger] s[i]) as u32 <= '9' as u32
}

/// The number the digits denote.
pub open spec fn digits_val(s: Seq<char>) -> int
    decreases s.len(),
{
    if s.len() == 0 {
        0
    } else {
        digits_val(s.drop_last()) * 10 + (s.last() as u32 as int - '0' as u32 as int)
    }
}

/// The fields collected while scanning lines; later lines overwrite
/// earlier ones.
pub struct FieldsSpec {
    pub host: Option<Seq<char>>,
    pub port: Option<int>,
    pub max_connections: Option<int>,
    pub timeout_seconds: Option<int>,
}

/// Nothing collected yet.
pub open spec fn no_fields() -> FieldsSpec {
    FieldsSpec { host: None, port: None, max_connections: None, timeout_seconds: None }
}

/// What scanning a settings text ends in.
pub enum ParseOutcome {
    /// Every required field was present and valid.
    Parsed { host: Seq<char>, port: int, max_connections: int, timeout_seconds: int },
    /// The named (trimmed) line holds no `=`.
    BadFormat { line: Seq<char> },
    /// The named field's value is not a number in the field's range.
    BadValue { field: Seq<char>, value: Seq<char> },
    /// The named required field never appeared.
    Missing { field: Seq<char> },
}

/// Handles one trimmed-and-split line: comments and blanks change
/// nothing, known keys record their value, unknown keys are ignored.
pub open spec fn handle_line(line: Seq<char>, acc: FieldsSpec) -> Result<FieldsSpec, ParseOutcome> {
    let t = trim_spec(line);
    if t.len() == 0 || t.first() == '#' {
        Ok(acc)
    } else if !t.contains('=') {
        Err(ParseOutcome::BadFormat { line: t })
    } else {
        let key = trim_spec(before_char(t, '='));
        let value = trim_spec(after_char(t, '='));
        if key == "host"@ {
            Ok(FieldsSpec { host: Some(value), ..acc })
        } else if key == "port"@ {
            if is_digits(value) && digits_val(value) <= 0xffff {
                Ok(FieldsSpec { port: Some(digits_val(value)), ..acc })
            } else {
                Err(ParseOutcome::BadValue { field: "port"@, value })
            }
        } else if key == "max_connections"@ {
            if is_digits(value) && digits_val(value) <= 0xffff_ffff {
                Ok(FieldsSpec { max_connections: Some(digits_val(value)), ..acc })
            } else {
                Err(ParseOutcome::BadValue { field: "max_connections"@, value })
            }
        } else if key == "timeout"@ {
            if is_digits(value) && digits_val(value) <= 0xffff_ffff_ffff_ffff {
                Ok(FieldsSpec { timeout_seconds: Some(digits_val(value)), ..acc })
            } else {
                Err(ParseOutcome::BadValue { field: "timeout"@, value })
            }
        } else {
            Ok(acc)
        }
    }
}

/// Scans the text character by character, cutting a line at every
/// newline and once more at the end.
pub open spec fn scan_text(s: Seq<char>, cur: Seq<char>, acc: FieldsSpec) -> Result<
    FieldsSpec,
    ParseOutcome,
>
    decreases s.len(),
{
    if s.len() == 0 {
        handle_line(cur, acc)
    } else if s.first() == '\n' {
        match handle_line(cur, acc) {
            Ok(acc2) => scan_text(s.drop_first(), Seq::empty(), acc2),
            Err(e) => Err(e),
        }
    } else {
        scan_text(s.drop_first(), cur.push(s.first()), acc)
    }
}

/// The first missing required field, in the fixed order host, port,
/// max_connections, timeout — or the parsed configuration.
pub open spec fn finish_fields(acc: FieldsSpec) -> ParseOutcome {
    if acc.host is None {
        ParseOutcome::Missing { field: "host"@ }
    } else if acc.port is None {
        ParseOutcome::Missing { field: "port"@ }
    } else if acc.max_connections is None {
        ParseOutcome::Missing { field: "max_connections"@ }
    } else if acc.timeout_seconds is None {
        ParseOutcome::Missing { field: "timeout"@ }
    } else {
        ParseOutcome::Parsed {
            host: acc.host->Some_0,
            port: acc.port->Some_0,
            max_connections: acc.max_connections->Some_0,
            timeout_seconds: acc.timeout_seconds->Some_0,
        }
    }
}

/// What parsing an entire settings text yields.
pub open spec fn parse_spec(s: Seq<char>) -> ParseOutcome {
    match scan_text(s, Seq::empty(), no_fields()) {
        Ok(acc) => finish_fields(acc),
        Err(e) => e,
    }
}

/// The message reported for a value that is not a number in range.
pub open spec fn value_message(field: Seq<char>, value: Seq<char>) -> Seq<char> {
    if field == "port"@ {
        "'"@ + value + "' is not a valid port number"@
    } else {
        "'"@ + value + "' is not a valid number"@
    }
}


proof fn lemma_digits_val_nonneg(s: Seq<char>)
    requires
        forall|i: int| 0 <= i < s.len() ==> '0' as u32 <= (#[trigger] s[i]) as u32 <= '9' as u32,
    ensures
        digits_val(s) >= 0,
    decreases s.len(),
{
    if s.len() > 0 {
        lemma_digits_val_nonneg(s.drop_last());
    }
}

proof fn lemma_digits_prefix_le(s: Seq<char>, i: int)
    requires
        forall|j: int| 0 <= j < s.len() ==> '0' as u32 <= (#[trigger] s[j]) as u32 <= '9' as u32,
        0 <= i <= s.len(),
    ensures
        digits_val(s.take(i)) <= digits_val(s),
    decreases s.len() - i,
{
    if i == s.len() {
        assert(s.take(i) =~= s);
    } else {
        assert(s.take(i + 1).drop_last() =~= s.take(i));
        assert forall|j: int|
            0 <= j < s.take(i).len() implies '0' as u32 <= (#[trigger] s.take(i)[j]) as u32
            <= '9' as u32 by {}
        lemma_digits_val_nonneg(s.take(i));
        lemma_digits_prefix_le(s, i + 1);
    }
}

proof fn lemma_split_at(s: Seq<char>, c: char, k: int)
    requires
        0 <= k < s.len(),
        s[k] == c,
        forall|j: int| 0 <= j < k ==> s[j] != c,
    ensures
        s.contains(c),
        before_char(s, c) == s.take(k),
        after_char(s, c) == s.skip(k + 1),
    decreases k,
{
    assert(s.contains(c)) by {
        assert(s[k] == c);
    }
    if k == 0 {
        assert(before_char(s, c) =~= s.take(0));
        assert(after_char(s, c) =~= s.skip(1));
    } else {
        assert forall|j: int| 0 <= j < k - 1 implies s.drop_first()[j] != c by {
            assert(s.drop_first()[j] == s[j + 1]);
        }
        lemma_split_at(s.drop_first(), c, k - 1);
        assert(before_char(s, c) =~= seq![s.first()] + s.drop_first().take(k - 1));
        assert(seq![s.first()] + s.drop_first().take(k - 1) =~= s.take(k));
        assert(s.drop_first().skip(k) =~= s.skip(k + 1));
    }
}

proof fn lemma_no_char(s: Seq<char>, c: char)
    requires
        forall|j: int| 0 <= j < s.len() ==> s[j] != c,
    ensures
        !s.contains(c),
{
}

/// The trimmed bounds of `cs[lo..hi)`: both ends move inward past
/// blanks, exactly as [`trim_spec`] says.
fn trim_range(cs: &Vec<char>, lo: usize, hi: usize) -> (r: (usize, usize))
    requires
        lo <= hi <= cs@.len(),
    ensures
        lo <= r.0 <= r.1 <= hi,
        cs@.subrange(r.0 as int, r.1 as int) == trim_spec(
            cs@.subrange(lo as int, hi as int),
        ),
{
    let mut a = lo;
    while a < hi && is_blank_char(cs[a])
        invariant
            lo <= a <= hi <= cs@.len(),
            trim_front_spec(cs@.subrange(lo as int, hi as int)) == trim_front_spec(
                cs@.subrange(a as int, hi as int),
            ),
        decreases hi - a,
    {
        proof {
            assert(cs@.subrange(a as int, hi as int).first() == cs@[a as int]);
            assert(cs@.subrange(a as int, hi as int).drop_first() =~= cs@.subrange(
                a as int + 1,
                hi as int,
            ));
        }
        a = a + 1;
    }
    proof {
        assert(trim_front_spec(cs@.subrange(a as int, hi as int)) == cs@.subrange(
            a as int,
            hi as int,
        ));
    }
    let mut b = hi;
    while b > a && is_blank_char(cs[b - 1])
        invariant
            lo <= a <= b <= hi <= cs@.len(),
            trim_back_spec(cs@.subrange(a as int, hi as int)) == trim_back_spec(
                cs@.subrange(a as int, b as int),
            ),
        decreases b,
    {
        proof {
            assert(cs@.subrange(a as int, b as int).last() == cs@[b as int - 1]);
            assert(cs@.subrange(a as int, b as int).drop_last() =~= cs@.subrange(
                a as int,
                b as int - 1,
            ));
        }
        b = b - 1;
    }
    proof {
        assert(trim_back_spec(cs@.subrange(a as int, b as int)) == cs@.subrange(
            a as int,
            b as int,
        ));
    }
    (a, b)
}

/// Whether the character counts as horizontal whitespace here.
fn is_blank_char(c: char) -> (b: bool)
    ensures
        b == is_blank(c),
{
    c == ' ' || c == '\t' || c == '\r'
}

/// The first position of `c` in `cs[lo..hi)`, if it occurs there.
fn find_in_range(cs: &Vec<char>, lo: usize, hi: usize, c: char) -> (r: Option<usize>)
    requires
        lo <= hi <= cs@.len(),
    ensures
        r matches Some(k) ==> lo <= k < hi && cs@[k as int] == c && (forall|j: int|
            lo <= j < k ==> cs@[j] != c),
        r is None ==> forall|j: int| lo <= j < hi ==> cs@[j] != c,
{
    let mut k = lo;
    while k < hi
        invariant
            lo <= k <= hi <= cs@.len(),
            forall|j: int| lo <= j < k ==> cs@[j] != c,
        decreases hi - k,
    {
        if cs[k] == c {
            return Some(k);
        }
        k = k + 1;
    }
    None
}

/// Reads `cs[lo..hi)` as a decimal number of at most `max`: exactly when
/// the range is a nonempty run of digits whose value fits, the value.
fn parse_decimal(cs: &Vec<char>, lo: usize, hi: usize, max: u64) -> (r: Option<u64>)
    requires
        lo <= hi <= cs@.len(),
    ensures
        (r is Some) == (is_digits(cs@.subrange(lo as int, hi as int)) && digits_val(
            cs@.subrange(lo as int, hi as int),
        ) <= max),
        r matches Some(v) ==> v as int == digits_val(cs@.subrange(lo as int, hi as int)),
{
    let ghost sub = cs@.subrange(lo as int, hi as int);
    if lo == hi {
        return None;
    }
    let mut acc: u64 = 0;
    let mut k = lo;
    while k < hi
        invariant
            lo <= k <= hi <= cs@.len(),
            sub == cs@.subrange(lo as int, hi as int),
            lo < hi,
            acc <= max,
            acc as int == digits_val(sub.take(k as int - lo as int)),
            forall|j: int|
                0 <= j < k - lo ==> '0' as u32 <= (#[trigger] sub[j]) as u32 <= '9' as u32,
        decreases hi - k,
    {
        let c = cs[k];
        let d = c as u32;
        proof {
            assert(sub[k as int - lo as int] == cs@[k as int]);
        }
        if d < '0' as u32 || d > '9' as u32 {
            proof {
                assert(!is_digits(sub));
            }
            return None;
        }
        let dv = (d - '0' as u32) as u64;
        proof {
            assert(sub.take(k as int - lo as int + 1).drop_last() =~= sub.take(
                k as int - lo as int,
            ));
            assert(sub.take(k as int - lo as int + 1).last() == sub[k as int - lo as int]);
        }
        if acc > max / 10 || (acc == max / 10 && dv > max % 10) {
            proof {
                assert(digits_val(sub.take(k as int - lo as int + 1)) > max);
                if is_digits(sub) {
                    lemma_digits_prefix_le(sub, k as int - lo as int + 1);
                }
            }
            return None;
        }
        acc = acc * 10 + dv;
        k = k + 1;
    }
    proof {
        assert(sub.take(hi as int - lo as int) =~= sub);
        assert(is_digits(sub));
    }
    Some(acc)
}

/// An owned copy of `cs[lo..hi)`.
fn string_of_range(cs: &Vec<char>, lo: usize, hi: usize) -> (r: String)
    requires
        lo <= hi <= cs@.len(),
    ensures
        r@ == cs@.subrange(lo as int, hi as int),
{
    let ghost sub = cs@.subrange(lo as int, hi as int);
    let mut r = String::new();
    let mut k = lo;
    while k < hi
        invariant
            lo <= k <= hi <= cs@.len(),
            sub == cs@.subrange(lo as int, hi as int),
            r@ == sub.take(k as int - lo as int),
        decreases hi - k,
    {
        r.push(cs[k]);
        proof {
            assert(sub.take(k as int - lo as int + 1).drop_last() =~= sub.take(
                k as int - lo as int,
            ));
            assert(sub.take(k as int - lo as int + 1).last() == sub[k as int - lo as int]);
            assert(r@ =~= sub.take(k as int - lo as int + 1));
        }
        k = k + 1;
    }
    proof {
        assert(sub.take(hi as int - lo as int) =~= sub);
    }
    r
}

/// Whether `cs[lo..hi)` spells exactly `word`.
fn range_matches(cs: &Vec<char>, lo: usize, hi: usize, word: &str) -> (b: bool)
    requires
        lo <= hi <= cs@.len(),
    ensures
        b == (cs@.subrange(lo as int, hi as int) == word@),
{
    let ghost sub = cs@.subrange(lo as int, hi as int);
    let w = chars_of(word);
    if hi - lo != w.len() {
        proof {
            assert(sub.len() != word@.len());
        }
        return false;
    }
    let mut k: usize = 0;
    while k < w.len()
        invariant
            lo + w@.len() == hi,
            hi <= cs@.len(),
            k <= w@.len(),
            w@ == word@,
            sub == cs@.subrange(lo as int, hi as int),
            forall|j: int| 0 <= j < k ==> sub[j] == word@[j],
        decreases w@.len() - k,
    {
        if !(cs[lo + k] == w[k]) {
            proof {
                assert(sub[k as int] == cs@[lo as int + k as int]);
                assert(sub[k as int] != word@[k as int]);
            }
            return false;
        }
        proof {
            assert(sub[k as int] == cs@[lo as int + k as int]);
        }
        k = k + 1;
    }
    proof {
        assert(sub =~= word@);
    }
    true
}


/// The spec-level view of the four collected fields.
pub open spec fn fields_of(
    host: Option<String>,
    port: Option<u16>,
    max_connections: Option<u32>,
    timeout_seconds: Option<u64>,
) -> FieldsSpec {
    FieldsSpec {
        host: match host {
            Some(h) => Some(h@),
            None => None,
        },
        port: match port {
            Some(p) => Some(p as int),
            None => None,
        },
        max_connections: match max_connections {
            Some(m) => Some(m as int),
            None => None,
        },
        timeout_seconds: match timeout_seconds {
            Some(t) => Some(t as int),
            None => None,
        },
    }
}

/// Applies one raw line `cs[lo..hi)` to the collected fields, exactly as
/// [`handle_line`] says.
fn apply_line(
    cs: &Vec<char>,
    lo: usize,
    hi: usize,
    host: &mut Option<String>,
    port: &mut Option<u16>,
    max_connections: &mut Option<u32>,
    timeout_seconds: &mut Option<u64>,
) -> (r: Result<(), ConfigError>)
    requires
        lo <= hi <= cs@.len(),
    ensures
        ({
            let line = cs@.subrange(lo as int, hi as int);
            let acc0 = fields_of(
                *old(host),
                *old(port),
                *old(max_connections),
                *old(timeout_seconds),
            );
            let acc1 = fields_of(
                *final(host),
                *final(port),
                *final(max_connections),
                *final(timeout_seconds),
            );
            match handle_line(line, acc0) {
                Ok(a) => r is Ok && acc1 == a,
                Err(e) => r is Err && (e matches ParseOutcome::BadFormat { line: l } ==> (r
                    matches Err(ConfigError::InvalidFormat(m)) && m@ == "Expected key=value, got: "@
                    + l)) && (e matches ParseOutcome::BadValue { field, value } ==> (r matches Err(
                    ConfigError::InvalidValue { field: f, message },
                ) && f@ == field && message@ == value_message(field, value))),
            }
        }),
{
    let ghost line = cs@.subrange(lo as int, hi as int);
    let (a, b) = trim_range(cs, lo, hi);
    let ghost t = trim_spec(line);
    proof {
        assert(cs@.subrange(a as int, b as int) == t);
    }
    if a == b {
        return Ok(());
    }
    if cs[a] == '#' {
        proof {
            assert(t.first() == cs@[a as int]);
        }
        return Ok(());
    }
    proof {
        assert(t.first() == cs@[a as int]);
    }
    match find_in_range(cs, a, b, '=') {
        None => {
            proof {
                assert forall|j: int| 0 <= j < t.len() implies t[j] != '=' by {
                    assert(t[j] == cs@[a as int + j]);
                }
                lemma_no_char(t, '=');
            }
            let mut m = "Expected key=value, got: ".to_owned();
            let lt = string_of_range(cs, a, b);
            m.push_str(lt.as_str());
            Err(ConfigError::InvalidFormat(m))
        },
        Some(e) => {
            proof {
                assert forall|j: int| 0 <= j < e - a implies t[j] != '=' by {
                    assert(t[j] == cs@[a as int + j]);
                }
                assert(t[e as int - a as int] == cs@[e as int]);
                lemma_split_at(t, '=', e as int - a as int);
                assert(before_char(t, '=') =~= cs@.subrange(a as int, e as int));
                assert(after_char(t, '=') =~= cs@.subrange(e as int + 1, b as int));
            }
            let (ka, kb) = trim_range(cs, a, e);
            let (va, vb) = trim_range(cs, e + 1, b);
            let ghost value = trim_spec(after_char(t, '='));
            proof {
                assert(cs@.subrange(ka as int, kb as int) == trim_spec(before_char(t, '=')));
                assert(cs@.subrange(va as int, vb as int) == value);
            }
            if range_matches(cs, ka, kb, "host") {
                *host = Some(string_of_range(cs, va, vb));
                Ok(())
            } else if range_matches(cs, ka, kb, "port") {
                match parse_decimal(cs, va, vb, 0xffff) {
                    Some(v) => {
                        *port = Some(v as u16);
                        Ok(())
                    },
                    None => Err(
                        ConfigError::InvalidValue {
                            field: "port".to_owned(),
                            message: bad_value_message(cs, va, vb, true),
                        },
                    ),
                }
            } else if range_matches(cs, ka, kb, "max_connections") {
                match parse_decimal(cs, va, vb, 0xffff_ffff) {
                    Some(v) => {
                        *max_connections = Some(v as u32);
                        Ok(())
                    },
                    None => Err(
                        ConfigError::InvalidValue {
                            field: "max_connections".to_owned(),
                            message: bad_value_message(cs, va, vb, false),
                        },
                    ),
                }
            } else if range_matches(cs, ka, kb, "timeout") {
                match parse_decimal(cs, va, vb, 0xffff_ffff_ffff_ffff) {
                    Some(v) => {
                        *timeout_seconds = Some(v);
                        Ok(())
                    },
                    None => Err(
                        ConfigError::InvalidValue {
                            field: "timeout".to_owned(),
                            message: bad_value_message(cs, va, vb, false),
                        },
                    ),
                }
            } else {
                Ok(())
            }
        },
    }
}

/// Builds the message that names an out-of-range or non-numeric value.
fn bad_value_message(cs: &Vec<char>, lo: usize, hi: usize, for_port: bool) -> (m: String)
    requires
        lo <= hi <= cs@.len(),
    ensures
        for_port ==> m@ == "'"@ + cs@.subrange(lo as int, hi as int)
            + "' is not a valid port number"@,
        !for_port ==> m@ == "'"@ + cs@.subrange(lo as int, hi as int) + "' is not a valid number"@,
{
    let mut m = "'".to_owned();
    let v = string_of_range(cs, lo, hi);
    m.push_str(v.as_str());
    if for_port {
        m.push_str("' is not a valid port number");
    } else {
        m.push_str("' is not a valid number");
    }
    m
}

/// Parses a settings text.  The result is pinned to [`parse_spec`]: it
/// succeeds exactly when the grammar accepts the text, the parsed fields
/// are the grammar's, and each refusal carries the exact message for the
/// first offending line, value or missing key.
pub fn parse_config(content: &str) -> (r: Result<ServerConfig, ConfigError>)
    ensures
        (r is Ok) == (parse_spec(content@) is Parsed),
        r matches Ok(c) ==> parse_spec(content@) == (ParseOutcome::Parsed {
            host: c.host@,
            port: c.port as int,
            max_connections: c.max_connections as int,
            timeout_seconds: c.timeout_seconds as int,
        }),
        parse_spec(content@) matches ParseOutcome::BadFormat { line } ==> (r matches Err(
            ConfigError::InvalidFormat(m),
        ) && m@ == "Expected key=value, got: "@ + line),
        parse_spec(content@) matches ParseOutcome::BadValue { field, value } ==> (r matches Err(
            ConfigError::InvalidValue { field: f, message },
        ) && f@ == field && message@ == value_message(field, value)),
        parse_spec(content@) matches ParseOutcome::Missing { field } ==> (r matches Err(
            ConfigError::MissingField(m),
        ) && m@ == field),
{
    let cs = chars_of(content);
    let n = cs.len();
    let ghost target = scan_text(content@, Seq::empty(), no_fields());
    let mut host: Option<String> = None;
    let mut port: Option<u16> = None;
    let mut max_connections: Option<u32> = None;
    let mut timeout_seconds: Option<u64> = None;
    let mut start: usize = 0;
    let mut k: usize = 0;
    proof {
        assert(cs@.subrange(0, 0) =~= Seq::<char>::empty());
        assert(content@.skip(0) =~= content@);
    }
    while k < n
        invariant
            start <= k <= n,
            n == cs@.len(),
            cs@ == content@,
            target == scan_text(content@, Seq::empty(), no_fields()),
            scan_text(
                content@.skip(k as int),
                cs@.subrange(start as int, k as int),
                fields_of(host, port, max_connections, timeout_seconds),
            ) == target,
        decreases n - k,
    {
        let ghost cur = cs@.subrange(start as int, k as int);
        let ghost acc0 = fields_of(host, port, max_connections, timeout_seconds);
        proof {
            assert(content@.skip(k as int).first() == cs@[k as int]);
            assert(content@.skip(k as int).drop_first() =~= content@.skip(k as int + 1));
        }
        if cs[k] == '\n' {
            let rl = apply_line(
                &cs,
                start,
                k,
                &mut host,
                &mut port,
                &mut max_connections,
                &mut timeout_seconds,
            );
            match rl {
                Ok(()) => {
                    start = k + 1;
                    proof {
                        assert(cs@.subrange(start as int, start as int) =~= Seq::<char>::empty());
                    }
                },
                Err(e) => {
                    proof {
                        assert(target == scan_text(content@, Seq::empty(), no_fields()));
                    }
                    return Err(e);
                },
            }
        } else {
            proof {
                assert(cur.push(cs@[k as int]) =~= cs@.subrange(start as int, k as int + 1));
            }
        }
        k = k + 1;
    }
    proof {
        assert(content@.skip(n as int) =~= Seq::<char>::empty());
    }
    let rl = apply_line(
        &cs,
        start,
        n,
        &mut host,
        &mut port,
        &mut max_connections,
        &mut timeout_seconds,
    );
    if let Err(e) = rl {
        return Err(e);
    }
    let h = match host {
        Some(h) => h,
        None => {
            return Err(ConfigError::MissingField("host".to_owned()));
        },
    };
    let p = match port {
        Some(p) => p,
        None => {
            return Err(ConfigError::MissingField("port".to_owned()));
        },
    };
    let mc = match max_connections {
        Some(m) => m,
        None => {
            return Err(ConfigError::MissingField("max_connections".to_owned()));
        },
    };
    let ts = match timeout_seconds {
        Some(t) => t,
        None => {
            return Err(ConfigError::MissingField("timeout".to_owned()));
        },
    };
    Ok(ServerConfig { host: h, port: p, max_connections: mc, timeout_seconds: ts })
}

/// Checks the parsed values that must not be zero, refusing the first
/// offender by name.
pub fn validate_config(config: &ServerConfig) -> (r: Result<(), &'static str>)
    ensures
        (r is Ok) == (config.port != 0 && config.max_connections != 0 && config.timeout_seconds
            != 0),
        config.port == 0 ==> (r matches Err(m) && m@ == "Port cannot be zero"@),
        config.port != 0 && config.max_connections == 0 ==> (r matches Err(m) && m@
            == "max_connections must be greater than zero"@),
        config.port != 0 && config.max_connections != 0 && config.timeout_seconds == 0 ==> (r
            matches Err(m) && m@ == "timeout must be greater than zero"@),
{
    if config.port == 0 {
        return Err("Port cannot be zero");
    }
    if config.max_connections == 0 {
        return Err("max_connections must be greater than zero");
    }
    if config.timeout_seconds == 0 {
        return Err("timeout must be greater than zero");
    }
    Ok(())
}

/// The characters of a string slice, in order.
fn chars_of(s: &str) -> (v: Vec<char>)
    ensures
        v@ == s@,
{
    let mut it = s.chars();
    let mut v: Vec<char> = Vec::new();
    proof {
        assert(v@ + it.remaining() =~= s@);
    }
    loop
        invariant_except_break
            IteratorSpec::decrease(&it) is Some,
            v@ + IteratorSpec::remaining(&it) == s@,
        ensures
            v@ == s@,
        decreases IteratorSpec::decrease(&it)->0,
    {
        match it.next() {
            Some(c) => {
                v.push(c);
                proof {
                    assert(v@ + IteratorSpec::remaining(&it) =~= s@);
                }
            },
            None => {
                proof {
                    assert(v@ =~= s@);
                }
                break ;
            },
        }
    }
    v
}

} // verus!
