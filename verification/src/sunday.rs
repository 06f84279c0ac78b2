//! The sunday protocol grammar: command data types and the line parser.

use vstd::prelude::*;

verus! {

/// The possible drink machines. `Unknown` is a sentinel for "no machine
/// selected yet"; the parser never produces it.
#[derive(Debug, Clone, Copy, PartialEq, Eq, Structural)]
pub enum Machine {
    LittleDrink,
    BigDrink,
    Snack,
    Unknown,
}

/// The display name of a machine, as it appears in the MACHINE welcome line.
pub open spec fn spec_machine_name(m: Machine) -> Seq<char> {
    match m {
        Machine::LittleDrink => "LittleDrink"@,
        Machine::BigDrink => "BigDrink"@,
        Machine::Snack => "Snack"@,
        Machine::Unknown => "Unknown"@,
    }
}

impl Machine {
    /// The display name of this machine.
    pub fn name(&self) -> (r: &'static str)
        ensures
            r@ == spec_machine_name(*self),
    {
        match self {
            Machine::LittleDrink => "LittleDrink",
            Machine::BigDrink => "BigDrink",
            Machine::Snack => "Snack",
            Machine::Unknown => "Unknown",
        }
    }
}

/// A parsed sunday protocol command, with its arguments contained within it.
/// Exactly one variant is produced per successfully parsed line; an
/// unparseable line yields no `Command` at all.
#[allow(non_camel_case_types)]
#[derive(Debug, PartialEq)]
pub enum Command {
    USER { username: String },
    PASS { password: String },
    IBUTTON { ibutton: String },
    MACHINE { machine: Machine },
    STAT,
    GETBALANCE,
    DROP { slot: u64, delay: u64 },
    SENDCREDITS { credits: u64, username: String },
    UPTIME,
    INVALID { reason: String },
}

/// The mathematical model of a `Command`: the same variants, with text
/// fields abstracted to character sequences.
#[allow(non_camel_case_types)]
pub enum CommandModel {
    USER { username: Seq<char> },
    PASS { password: Seq<char> },
    IBUTTON { ibutton: Seq<char> },
    MACHINE { machine: Machine },
    STAT,
    GETBALANCE,
    DROP { slot: u64, delay: u64 },
    SENDCREDITS { credits: u64, username: Seq<char> },
    UPTIME,
    INVALID { reason: Seq<char> },
}

impl DeepView for Command {
    type V = CommandModel;

    open spec fn deep_view(&self) -> CommandModel {
        match self {
            Command::USER { username } => CommandModel::USER { username: username@ },
            Command::PASS { password } => CommandModel::PASS { password: password@ },
            Command::IBUTTON { ibutton } => CommandModel::IBUTTON { ibutton: ibutton@ },
            Command::MACHINE { machine } => CommandModel::MACHINE { machine: *machine },
            Command::STAT => CommandModel::STAT,
            Command::GETBALANCE => CommandModel::GETBALANCE,
            Command::DROP { slot, delay } => CommandModel::DROP { slot: *slot, delay: *delay },
            Command::SENDCREDITS { credits, username } => (CommandModel::SENDCREDITS {
                credits: *credits,
                username: username@,
            }),
            Command::UPTIME => CommandModel::UPTIME,
            Command::INVALID { reason } => CommandModel::INVALID { reason: reason@ },
        }
    }
}

/// True when `tag` is a prefix of `s`.
pub open spec fn has_prefix(s: Seq<u8>, tag: Seq<u8>) -> bool {
    tag.len() <= s.len() && s.subrange(0, tag.len() as int) == tag
}

/// Byte-wise equality of two slices.
pub fn bytes_eq(a: &[u8], b: &[u8]) -> (r: bool)
    ensures
        r <==> a@ == b@,
{
    if a.len() != b.len() {
        return false;
    }
    let n = a.len();
    let mut i: usize = 0;
    while i < n
        invariant
            n == a@.len() == b@.len(),
            i <= n,
            forall|k: int| 0 <= k < i ==> a@[k] == b@[k],
        decreases n - i,
    {
        if a[i] != b[i] {
            return false;
        }
        i = i + 1;
    }
    proof {
        assert(a@ =~= b@);
    }
    true
}

/// True when the bytes of `tag` stand at the front of `s`.
pub fn starts_with(s: &[u8], tag: &[u8]) -> (r: bool)
    ensures
        r == has_prefix(s@, tag@),
{
    let tn = tag.len();
    if tn > s.len() {
        return false;
    }
    let mut i: usize = 0;
    while i < tn
        invariant
            tn == tag@.len() <= s@.len(),
            i <= tn,
            forall|k: int| 0 <= k < i ==> s@[k] == tag@[k],
        decreases tn - i,
    {
        if s[i] != tag[i] {
            proof {
                assert(s@.subrange(0, tn as int)[i as int] != tag@[i as int]);
            }
            return false;
        }
        i = i + 1;
    }
    proof {
        assert(s@.subrange(0, tn as int) =~= tag@);
    }
    true
}

/// The position of the first line-feed byte at or after position `i`.
pub open spec fn find_nl(s: Seq<u8>, i: int) -> Option<int>
    decreases s.len() - i,
{
    if i < 0 || i >= s.len() {
        None
    } else if s[i] == ('\n' as u8) {
        Some(i)
    } else {
        find_nl(s, i + 1)
    }
}

/// Search for the first line-feed byte at or after position `from`.
pub fn find_newline(s: &[u8], from: usize) -> (r: Option<usize>)
    ensures
        match r {
            Some(j) => find_nl(s@, from as int) == Some(j as int),
            None => find_nl(s@, from as int) is None,
        },
{
    let n = s.len();
    let mut i = from;
    if i > n {
        i = n;
    }
    while i < n
        invariant
            n == s@.len(),
            i <= n,
            find_nl(s@, from as int) == find_nl(s@, i as int),
        decreases n - i,
    {
        if s[i] == ('\n' as u8) {
            return Some(i);
        }
        i = i + 1;
    }
    None
}

/// True of the ASCII digit bytes.
pub open spec fn is_digit(b: u8) -> bool {
    ('0' as u8) <= b && b <= ('9' as u8)
}

/// The value of a sequence of ASCII digit bytes read as a decimal number.
pub open spec fn digits_val(s: Seq<u8>) -> int
    decreases s.len(),
{
    if s.len() == 0 {
        0
    } else {
        10 * digits_val(s.drop_last()) + (s.last() - ('0' as u8))
    }
}

/// The end of the run of ASCII digit bytes that starts at position `i`.
pub open spec fn digit_run_end(s: Seq<u8>, i: int) -> int
    decreases s.len() - i,
{
    if i < 0 || i >= s.len() || !is_digit(s[i]) {
        i
    } else {
        digit_run_end(s, i + 1)
    }
}

pub proof fn lemma_digit_run_end(s: Seq<u8>, i: int)
    requires
        0 <= i <= s.len(),
    ensures
        i <= digit_run_end(s, i) <= s.len(),
        forall|k: int| i <= k < digit_run_end(s, i) ==> is_digit(s[k]),
        digit_run_end(s, i) < s.len() ==> !is_digit(s[digit_run_end(s, i)]),
    decreases s.len() - i,
{
    if i < s.len() && is_digit(s[i]) {
        lemma_digit_run_end(s, i + 1);
    }
}

proof fn lemma_digits_val_nonneg(s: Seq<u8>)
    requires
        forall|k: int| 0 <= k < s.len() ==> is_digit(s[k]),
    ensures
        digits_val(s) >= 0,
    decreases s.len(),
{
    if s.len() > 0 {
        lemma_digits_val_nonneg(s.drop_last());
    }
}

/// A decimal number only grows as digits are appended to it.
proof fn lemma_digits_val_prefix(s: Seq<u8>, j: int)
    requires
        forall|k: int| 0 <= k < s.len() ==> is_digit(s[k]),
        0 <= j <= s.len(),
    ensures
        digits_val(s.subrange(0, j)) <= digits_val(s),
    decreases s.len() - j,
{
    if j < s.len() {
        lemma_digits_val_prefix(s, j + 1);
        let p = s.subrange(0, j + 1);
        assert(p.drop_last() =~= s.subrange(0, j));
        lemma_digits_val_nonneg(s.subrange(0, j));
    } else {
        assert(s.subrange(0, j) =~= s);
    }
}

/// The decimal number formed by the digit run starting at position `i`,
/// together with the position just past the run; `None` when no digit
/// stands at `i` or the number does not fit in a `u64`.
pub open spec fn spec_number_at(s: Seq<u8>, i: int) -> Option<(u64, int)> {
    let e = digit_run_end(s, i);
    if e == i {
        None
    } else if digits_val(s.subrange(i, e)) > u64::MAX {
        None
    } else {
        Some((digits_val(s.subrange(i, e)) as u64, e))
    }
}

/// Read the decimal number whose digit run starts at position `from`.
pub fn scan_number(s: &[u8], from: usize) -> (r: Option<(u64, usize)>)
    requires
        from <= s@.len(),
    ensures
        match r {
            Some((v, end)) => spec_number_at(s@, from as int) == Some((v, end as int)),
            None => spec_number_at(s@, from as int) is None,
        },
{
    let ghost e = digit_run_end(s@, from as int);
    proof {
        lemma_digit_run_end(s@, from as int);
    }
    let n = s.len();
    let mut i = from;
    let mut val: u64 = 0;
    while i < n && is_digit_byte(s[i])
        invariant
            n == s@.len(),
            from <= i <= e <= n,
            e == digit_run_end(s@, from as int),
            forall|k: int| from <= k < e ==> is_digit(s@[k]),
            e < n ==> !is_digit(s@[e as int]),
            val == digits_val(s@.subrange(from as int, i as int)),
        decreases n - i,
    {
        proof {
            if i == e {
                assert(!is_digit(s@[e as int]));
            }
        }
        let d = s[i] - ('0' as u8);
        let next = match val.checked_mul(10) {
            Some(m) => m.checked_add(d as u64),
            None => None,
        };
        proof {
            let run = s@.subrange(from as int, e as int);
            let p = s@.subrange(from as int, i + 1);
            assert(p.drop_last() =~= s@.subrange(from as int, i as int));
            assert(digits_val(p) == 10 * val + d);
            assert(p =~= run.subrange(0, i + 1 - from));
            assert(forall|k: int| 0 <= k < run.len() ==> is_digit(run[k]));
            lemma_digits_val_prefix(run, i + 1 - from);
        }
        match next {
            Some(v2) => {
                val = v2;
            },
            None => {
                return None;
            },
        }
        i = i + 1;
    }
    proof {
        if i < n && !is_digit(s@[i as int]) && i < e {
            assert(is_digit(s@[i as int]));
        }
        assert(i == e);
    }
    if i == from {
        None
    } else {
        Some((val, i))
    }
}

/// Executable check for an ASCII digit byte.
pub fn is_digit_byte(b: u8) -> (r: bool)
    ensures
        r == is_digit(b),
{
    ('0' as u8) <= b && b <= ('9' as u8)
}

pub proof fn lemma_find_nl(s: Seq<u8>, i: int)
    requires
        0 <= i <= s.len(),
    ensures
        match find_nl(s, i) {
            Some(j) => i <= j < s.len() && s[j] == ('\n' as u8) && (forall|k: int|
                i <= k < j ==> s[k] != ('\n' as u8)),
            None => forall|k: int| i <= k < s.len() ==> s[k] != ('\n' as u8),
        },
    decreases s.len() - i,
{
    if i < s.len() && s[i] != ('\n' as u8) {
        lemma_find_nl(s, i + 1);
    }
}

/// The keyword and separator bytes that open each command line.
pub open spec fn tag_uptime_line() -> Seq<u8> {
    seq![
        ('U' as u8),
        ('P' as u8),
        ('T' as u8),
        ('I' as u8),
        ('M' as u8),
        ('E' as u8),
        ('\n' as u8),
    ]
}

pub open spec fn tag_drop() -> Seq<u8> {
    seq![('D' as u8), ('R' as u8), ('O' as u8), ('P' as u8), (' ' as u8)]
}

pub open spec fn tag_getbalance_line() -> Seq<u8> {
    seq![
        ('G' as u8),
        ('E' as u8),
        ('T' as u8),
        ('B' as u8),
        ('A' as u8),
        ('L' as u8),
        ('A' as u8),
        ('N' as u8),
        ('C' as u8),
        ('E' as u8),
        ('\n' as u8),
    ]
}

pub open spec fn tag_stat_line() -> Seq<u8> {
    seq![('S' as u8), ('T' as u8), ('A' as u8), ('T' as u8), ('\n' as u8)]
}

pub open spec fn tag_machine() -> Seq<u8> {
    seq![
        ('M' as u8),
        ('A' as u8),
        ('C' as u8),
        ('H' as u8),
        ('I' as u8),
        ('N' as u8),
        ('E' as u8),
        (' ' as u8),
    ]
}

pub open spec fn tag_ibutton() -> Seq<u8> {
    seq![
        ('I' as u8),
        ('B' as u8),
        ('U' as u8),
        ('T' as u8),
        ('T' as u8),
        ('O' as u8),
        ('N' as u8),
        (' ' as u8),
    ]
}

pub open spec fn tag_pass() -> Seq<u8> {
    seq![('P' as u8), ('A' as u8), ('S' as u8), ('S' as u8), (' ' as u8)]
}

pub open spec fn tag_user() -> Seq<u8> {
    seq![('U' as u8), ('S' as u8), ('E' as u8), ('R' as u8), (' ' as u8)]
}

pub open spec fn tag_sendcredits() -> Seq<u8> {
    seq![
        ('S' as u8),
        ('E' as u8),
        ('N' as u8),
        ('D' as u8),
        ('C' as u8),
        ('R' as u8),
        ('E' as u8),
        ('D' as u8),
        ('I' as u8),
        ('T' as u8),
        ('S' as u8),
        (' ' as u8),
    ]
}

/// The free-text field that runs from position `from` to the first line
/// feed: `None` when no line feed follows (the line is incomplete),
/// `Some(None)` when the bytes are not valid UTF-8, `Some(Some(text))`
/// otherwise.
pub open spec fn spec_text_field(s: Seq<u8>, from: int) -> Option<Option<Seq<char>>> {
    match find_nl(s, from) {
        None => None,
        Some(j) => {
            let f = s.subrange(from, j);
            if vstd::utf8::valid_utf8(f) {
                Some(Some(vstd::utf8::decode_utf8(f)))
            } else {
                Some(None)
            }
        },
    }
}

/// Relies on `String::from_utf8`: it succeeds exactly on the byte
/// sequences that vstd's UTF-8 model accepts as valid, and then returns
/// their decoding.
#[verifier::external_body]
fn bytes_to_string(bytes: Vec<u8>) -> (r: Option<String>)
    ensures
        r is Some <==> vstd::utf8::valid_utf8(bytes@),
        r matches Some(s) ==> s@ == vstd::utf8::decode_utf8(bytes@),
{
    String::from_utf8(bytes).ok()
}

/// Read and decode the free-text field that runs from `from` to the first
/// line feed.
fn read_text_field(input: &[u8], from: usize) -> (r: Option<Option<String>>)
    requires
        from <= input@.len(),
    ensures
        r.deep_view() == spec_text_field(input@, from as int),
{
    proof {
        lemma_find_nl(input@, from as int);
    }
    match find_newline(input, from) {
        None => None,
        Some(j) => {
            let f = vstd::slice::slice_subrange(input, from, j);
            match bytes_to_string(vstd::slice::slice_to_vec(f)) {
                None => Some(None),
                Some(st) => Some(Some(st)),
            }
        },
    }
}

/// Which machine a string alias selects.
pub open spec fn spec_machine_from_alias(a: Seq<char>) -> Option<Machine> {
    if a == "ld"@ {
        Some(Machine::LittleDrink)
    } else if a == "d"@ {
        Some(Machine::BigDrink)
    } else if a == "s"@ {
        Some(Machine::Snack)
    } else {
        None
    }
}

/// Equality of two string slices, decided through their UTF-8 bytes.
pub fn str_eq_str(a: &str, b: &str) -> (r: bool)
    ensures
        r <==> a@ == b@,
{
    let req = bytes_eq(a.as_bytes(), b.as_bytes());
    proof {
        broadcast use vstd::utf8::encode_utf8_decode_utf8;

        assert(vstd::utf8::decode_utf8(vstd::utf8::encode_utf8(a@)) == a@);
        assert(vstd::utf8::decode_utf8(vstd::utf8::encode_utf8(b@)) == b@);
    }
    req
}

/// The pairing between a string alias for a drink machine and the enum
/// entry for that machine.
pub fn machine_from_str(string: &str) -> (r: Result<Machine, &str>)
    ensures
        match r {
            Ok(m) => spec_machine_from_alias(string@) == Some(m),
            Err(e) => spec_machine_from_alias(string@) is None && e@ == "Invalid Machine Alias"@,
        },
{
    if str_eq_str(string, "ld") {
        Ok(Machine::LittleDrink)
    } else if str_eq_str(string, "d") {
        Ok(Machine::BigDrink)
    } else if str_eq_str(string, "s") {
        Ok(Machine::Snack)
    } else {
        Err("Invalid Machine Alias")
    }
}

/// A `USER `, `PASS ` or `IBUTTON ` line: everything between the keyword
/// and the terminator is the field; bytes that do not decode as text give
/// an INVALID command carrying the given diagnostic.
pub open spec fn spec_parse_text_cmd(
    s: Seq<u8>,
    from: int,
    ok: spec_fn(Seq<char>) -> CommandModel,
    utf8_reason: Seq<char>,
) -> Option<CommandModel> {
    match spec_text_field(s, from) {
        None => None,
        Some(None) => Some(CommandModel::INVALID { reason: utf8_reason }),
        Some(Some(t)) => Some(ok(t)),
    }
}

/// A `MACHINE ` line: the alias runs to the terminator; an unrecognized
/// alias gives an INVALID command, not a structural non-match.
pub open spec fn spec_parse_machine(s: Seq<u8>) -> Option<CommandModel> {
    match spec_text_field(s, 8) {
        None => None,
        Some(None) => Some(CommandModel::INVALID { reason: "MACHINE: UTF8 Error"@ }),
        Some(Some(a)) => match spec_machine_from_alias(a) {
            Some(m) => Some(CommandModel::MACHINE { machine: m }),
            None => Some(CommandModel::INVALID { reason: "MACHINE: Invalid Alias"@ }),
        },
    }
}

/// A `DROP ` line: a slot number, one space, an optional delay number
/// (default 0), then the terminator.
pub open spec fn spec_parse_drop(s: Seq<u8>) -> Option<CommandModel> {
    match spec_number_at(s, 5) {
        None => None,
        Some((slot, p)) => if p < s.len() && s[p] == (' ' as u8) {
            match spec_number_at(s, p + 1) {
                Some((delay, q)) => if q < s.len() && s[q] == ('\n' as u8) {
                    Some(CommandModel::DROP { slot, delay })
                } else {
                    None
                },
                None => if p + 1 < s.len() && s[p + 1] == ('\n' as u8) {
                    Some(CommandModel::DROP { slot, delay: 0 })
                } else {
                    None
                },
            }
        } else {
            None
        },
    }
}

/// A `SENDCREDITS ` line: a credit number, one space, then a free-text
/// username up to the terminator.
pub open spec fn spec_parse_sendcredits(s: Seq<u8>) -> Option<CommandModel> {
    match spec_number_at(s, 12) {
        None => None,
        Some((credits, p)) => if p < s.len() && s[p] == (' ' as u8) {
            match spec_text_field(s, p + 1) {
                None => None,
                Some(None) => Some(CommandModel::INVALID { reason: "SENDCREDITS: UTF8 Error"@ }),
                Some(Some(u)) => Some(CommandModel::SENDCREDITS { credits, username: u }),
            }
        } else {
            None
        },
    }
}

/// The full sunday grammar: an alternation over the command keywords.
/// At most one alternative can match a given line, since no two keywords
/// share a prefix.
pub open spec fn spec_parse(s: Seq<u8>) -> Option<CommandModel> {
    if has_prefix(s, tag_uptime_line()) {
        Some(CommandModel::UPTIME)
    } else if has_prefix(s, tag_drop()) {
        spec_parse_drop(s)
    } else if has_prefix(s, tag_getbalance_line()) {
        Some(CommandModel::GETBALANCE)
    } else if has_prefix(s, tag_stat_line()) {
        Some(CommandModel::STAT)
    } else if has_prefix(s, tag_machine()) {
        spec_parse_machine(s)
    } else if has_prefix(s, tag_ibutton()) {
        spec_parse_text_cmd(
            s,
            8,
            |t: Seq<char>| CommandModel::IBUTTON { ibutton: t },
            "IBUTTON: UTF8 Error"@,
        )
    } else if has_prefix(s, tag_pass()) {
        spec_parse_text_cmd(
            s,
            5,
            |t: Seq<char>| CommandModel::PASS { password: t },
            "PASS: UTF8 Error"@,
        )
    } else if has_prefix(s, tag_user()) {
        spec_parse_text_cmd(
            s,
            5,
            |t: Seq<char>| CommandModel::USER { username: t },
            "USER: UTF8 Error"@,
        )
    } else if has_prefix(s, tag_sendcredits()) {
        spec_parse_sendcredits(s)
    } else {
        None
    }
}

fn parse_machine_cmd(input: &[u8]) -> (r: Option<Command>)
    requires
        has_prefix(input@, tag_machine()),
    ensures
        r.deep_view() == spec_parse_machine(input@),
{
    match read_text_field(input, 8) {
        None => None,
        Some(None) => Some(
            Command::INVALID { reason: String::from_str("MACHINE: UTF8 Error") },
        ),
        Some(Some(alias)) => match machine_from_str(alias.as_str()) {
            Ok(m) => Some(Command::MACHINE { machine: m }),
            Err(_) => Some(Command::INVALID { reason: String::from_str("MACHINE: Invalid Alias") }),
        },
    }
}

fn parse_drop_cmd(input: &[u8]) -> (r: Option<Command>)
    requires
        has_prefix(input@, tag_drop()),
    ensures
        r.deep_view() == spec_parse_drop(input@),
{
    match scan_number(input, 5) {
        None => None,
        Some((slot, p)) => {
            if p < input.len() && input[p] == (' ' as u8) {
                let q = p + 1;
                match scan_number(input, q) {
                    Some((delay, end)) => {
                        if end < input.len() && input[end] == ('\n' as u8) {
                            Some(Command::DROP { slot, delay })
                        } else {
                            None
                        }
                    },
                    None => {
                        if q < input.len() && input[q] == ('\n' as u8) {
                            Some(Command::DROP { slot, delay: 0 })
                        } else {
                            None
                        }
                    },
                }
            } else {
                None
            }
        },
    }
}

fn parse_sendcredits_cmd(input: &[u8]) -> (r: Option<Command>)
    requires
        has_prefix(input@, tag_sendcredits()),
    ensures
        r.deep_view() == spec_parse_sendcredits(input@),
{
    match scan_number(input, 12) {
        None => None,
        Some((credits, p)) => {
            if p < input.len() && input[p] == (' ' as u8) {
                match read_text_field(input, p + 1) {
                    None => None,
                    Some(None) => Some(
                        Command::INVALID { reason: String::from_str("SENDCREDITS: UTF8 Error") },
                    ),
                    Some(Some(username)) => Some(Command::SENDCREDITS { credits, username }),
                }
            } else {
                None
            }
        },
    }
}

/// Run the parser on a buffered line. `None` means no alternative of the
/// grammar matched; the caller must treat that as receiving no command.
/// Parsing is a pure function of the input bytes: the result is pinned to
/// `spec_parse`, so re-parsing identical bytes always yields the identical
/// command.
pub fn parse_sunday_line(input: &[u8]) -> (r: Option<Command>)
    ensures
        r.deep_view() == spec_parse(input@),
{
    let t_uptime = [
        ('U' as u8),
        ('P' as u8),
        ('T' as u8),
        ('I' as u8),
        ('M' as u8),
        ('E' as u8),
        ('\n' as u8),
    ];
    proof {
        assert(t_uptime@ =~= tag_uptime_line());
    }
    if starts_with(input, t_uptime.as_slice()) {
        return Some(Command::UPTIME);
    }
    let t_drop = [('D' as u8), ('R' as u8), ('O' as u8), ('P' as u8), (' ' as u8)];
    proof {
        assert(t_drop@ =~= tag_drop());
    }
    if starts_with(input, t_drop.as_slice()) {
        return parse_drop_cmd(input);
    }
    let t_getbalance = [
        ('G' as u8),
        ('E' as u8),
        ('T' as u8),
        ('B' as u8),
        ('A' as u8),
        ('L' as u8),
        ('A' as u8),
        ('N' as u8),
        ('C' as u8),
        ('E' as u8),
        ('\n' as u8),
    ];
    proof {
        assert(t_getbalance@ =~= tag_getbalance_line());
    }
    if starts_with(input, t_getbalance.as_slice()) {
        return Some(Command::GETBALANCE);
    }
    let t_stat = [('S' as u8), ('T' as u8), ('A' as u8), ('T' as u8), ('\n' as u8)];
    proof {
        assert(t_stat@ =~= tag_stat_line());
    }
    if starts_with(input, t_stat.as_slice()) {
        return Some(Command::STAT);
    }
    let t_machine = [
        ('M' as u8),
        ('A' as u8),
        ('C' as u8),
        ('H' as u8),
        ('I' as u8),
        ('N' as u8),
        ('E' as u8),
        (' ' as u8),
    ];
    proof {
        assert(t_machine@ =~= tag_machine());
    }
    if starts_with(input, t_machine.as_slice()) {
        return parse_machine_cmd(input);
    }
    let t_ibutton = [
        ('I' as u8),
        ('B' as u8),
        ('U' as u8),
        ('T' as u8),
        ('T' as u8),
        ('O' as u8),
        ('N' as u8),
        (' ' as u8),
    ];
    proof {
        assert(t_ibutton@ =~= tag_ibutton());
    }
    if starts_with(input, t_ibutton.as_slice()) {
        let r = match read_text_field(input, 8) {
            None => None,
            Some(None) => Some(
                Command::INVALID { reason: String::from_str("IBUTTON: UTF8 Error") },
            ),
            Some(Some(ibutton)) => Some(Command::IBUTTON { ibutton }),
        };
        return r;
    }
    let t_pass = [('P' as u8), ('A' as u8), ('S' as u8), ('S' as u8), (' ' as u8)];
    proof {
        assert(t_pass@ =~= tag_pass());
    }
    if starts_with(input, t_pass.as_slice()) {
        let r = match read_text_field(input, 5) {
            None => None,
            Some(None) => Some(Command::INVALID { reason: String::from_str("PASS: UTF8 Error") }),
            Some(Some(password)) => Some(Command::PASS { password }),
        };
        return r;
    }
    let t_user = [('U' as u8), ('S' as u8), ('E' as u8), ('R' as u8), (' ' as u8)];
    proof {
        assert(t_user@ =~= tag_user());
    }
    if starts_with(input, t_user.as_slice()) {
        let r = match read_text_field(input, 5) {
            None => None,
            Some(None) => Some(Command::INVALID { reason: String::from_str("USER: UTF8 Error") }),
            Some(Some(username)) => Some(Command::USER { username }),
        };
        return r;
    }
    let t_sendcredits = [
        ('S' as u8),
        ('E' as u8),
        ('N' as u8),
        ('D' as u8),
        ('C' as u8),
        ('R' as u8),
        ('E' as u8),
        ('D' as u8),
        ('I' as u8),
        ('T' as u8),
        ('S' as u8),
        (' ' as u8),
    ];
    proof {
        assert(t_sendcredits@ =~= tag_sendcredits());
    }
    if starts_with(input, t_sendcredits.as_slice()) {
        return parse_sendcredits_cmd(input);
    }
    None
}

/// Parsing is deterministic: it is a pure function of the input bytes, so
/// parsing the same bytes twice yields identical results.
pub proof fn lemma_parse_deterministic(s1: Seq<u8>, s2: Seq<u8>)
    requires
        s1 == s2,
    ensures
        spec_parse(s1) == spec_parse(s2),
{
}

/// A line that lacks its terminating line feed never parses: it is
/// incomplete, not invalid.
pub proof fn lemma_unterminated_line_never_parses(s: Seq<u8>)
    requires
        forall|k: int| 0 <= k < s.len() ==> s[k] != ('\n' as u8),
    ensures
        spec_parse(s) is None,
{
    if has_prefix(s, tag_uptime_line()) {
        assert(s.subrange(0, 7)[6] == s[6]);
        assert(false);
    } else if has_prefix(s, tag_drop()) {
        match spec_number_at(s, 5) {
            None => {},
            Some((slot, p)) => {
                lemma_digit_run_end(s, 5);
                if p < s.len() && s[p] == (' ' as u8) {
                    lemma_digit_run_end(s, p + 1);
                }
            },
        }
        assert(spec_parse_drop(s) is None);
    } else if has_prefix(s, tag_getbalance_line()) {
        assert(s.subrange(0, 11)[10] == s[10]);
        assert(false);
    } else if has_prefix(s, tag_stat_line()) {
        assert(s.subrange(0, 5)[4] == s[4]);
        assert(false);
    } else if has_prefix(s, tag_machine()) {
        lemma_find_nl(s, 8);
        assert(spec_parse_machine(s) is None);
    } else if has_prefix(s, tag_ibutton()) {
        lemma_find_nl(s, 8);
        assert(spec_text_field(s, 8) is None);
    } else if has_prefix(s, tag_pass()) {
        lemma_find_nl(s, 5);
        assert(spec_text_field(s, 5) is None);
    } else if has_prefix(s, tag_user()) {
        lemma_find_nl(s, 5);
        assert(spec_text_field(s, 5) is None);
    } else if has_prefix(s, tag_sendcredits()) {
        match spec_number_at(s, 12) {
            None => {},
            Some((credits, p)) => {
                lemma_digit_run_end(s, 12);
                if p < s.len() && s[p] == (' ' as u8) {
                    lemma_find_nl(s, p + 1);
                    assert(spec_text_field(s, p + 1) is None);
                }
            },
        }
        assert(spec_parse_sendcredits(s) is None);
    }
}

/// A `MACHINE ` line whose alias is none of `ld`, `d` and `s` parses to an
/// INVALID command, never to a structural non-match.
pub proof fn lemma_unknown_machine_alias_is_invalid(alias: Seq<u8>)
    requires
        forall|k: int| 0 <= k < alias.len() ==> alias[k] != ('\n' as u8),
        alias != seq![('l' as u8), ('d' as u8)],
        alias != seq![('d' as u8)],
        alias != seq![('s' as u8)],
    ensures
        spec_parse(tag_machine() + alias + seq![('\n' as u8)]) matches Some(
            CommandModel::INVALID { .. },
        ),
{
    broadcast use vstd::utf8::decode_utf8_encode_utf8;
    broadcast use vstd::utf8::is_ascii_chars_encode_utf8;

    let s = tag_machine() + alias + seq![('\n' as u8)];
    let n = alias.len() as int;
    assert(s.len() == 9 + n);
    assert forall|k: int| 0 <= k < 8 implies s[k] == tag_machine()[k] by {}
    assert forall|k: int| 8 <= k < 8 + n implies s[k] == alias[k - 8] by {}
    assert(s[8 + n] == ('\n' as u8));
    assert(s.subrange(0, 8) =~= tag_machine());
    assert(has_prefix(s, tag_machine()));
    assert(!has_prefix(s, tag_uptime_line())) by {
        if has_prefix(s, tag_uptime_line()) {
            assert(s.subrange(0, 7)[0] == s[0]);
        }
    }
    assert(!has_prefix(s, tag_drop())) by {
        if has_prefix(s, tag_drop()) {
            assert(s.subrange(0, 5)[0] == s[0]);
        }
    }
    assert(!has_prefix(s, tag_getbalance_line())) by {
        if has_prefix(s, tag_getbalance_line()) {
            assert(s.subrange(0, 11)[0] == s[0]);
        }
    }
    assert(!has_prefix(s, tag_stat_line())) by {
        if has_prefix(s, tag_stat_line()) {
            assert(s.subrange(0, 5)[0] == s[0]);
        }
    }
    lemma_find_nl(s, 8);
    let j = 8 + n;
    match find_nl(s, 8) {
        None => {
            assert(s[j] == ('\n' as u8));
        },
        Some(j2) => {
            if j2 < j {
                assert(s[j2] == alias[j2 - 8]);
            }
            if j2 > j {
                assert(s[j] != ('\n' as u8));
            }
            assert(j2 == j);
            let f = s.subrange(8, j);
            assert(f =~= alias);
            if vstd::utf8::valid_utf8(alias) {
                let a = vstd::utf8::decode_utf8(alias);
                assert(vstd::utf8::encode_utf8(a) == alias);
                if a == "ld"@ {
                    proof_strlit_ld();
                    assert(alias =~= seq![('l' as u8), ('d' as u8)]);
                }
                if a == "d"@ {
                    proof_strlit_d();
                    assert(alias =~= seq![('d' as u8)]);
                }
                if a == "s"@ {
                    proof_strlit_s();
                    assert(alias =~= seq![('s' as u8)]);
                }
                assert(spec_machine_from_alias(a) is None);
            }
        },
    }
}

proof fn proof_strlit_ld()
    ensures
        "ld"@.len() == 2,
        "ld"@[0] == 'l',
        "ld"@[1] == 'd',
        vstd::utf8::encode_utf8("ld"@) =~= seq![('l' as u8), ('d' as u8)],
{
    reveal_strlit("ld");
    assert(vstd::utf8::is_ascii_chars("ld"@));
    vstd::utf8::is_ascii_chars_encode_utf8("ld"@);
}

proof fn proof_strlit_d()
    ensures
        "d"@.len() == 1,
        "d"@[0] == 'd',
        vstd::utf8::encode_utf8("d"@) =~= seq![('d' as u8)],
{
    reveal_strlit("d");
    assert(vstd::utf8::is_ascii_chars("d"@));
    vstd::utf8::is_ascii_chars_encode_utf8("d"@);
}

proof fn proof_strlit_s()
    ensures
        "s"@.len() == 1,
        "s"@[0] == 's',
        vstd::utf8::encode_utf8("s"@) =~= seq![('s' as u8)],
{
    reveal_strlit("s");
    assert(vstd::utf8::is_ascii_chars("s"@));
    vstd::utf8::is_ascii_chars_encode_utf8("s"@);
}

} // verus!
