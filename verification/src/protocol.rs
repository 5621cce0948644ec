//! Wire protocol of the instrument: encoding of outbound commands and
//! parsing of inbound lines (samples, command echoes, settings, errors).
//! All frames are ASCII; the transport adds the terminating CR.

use vstd::prelude::*;

use crate::digits::all_digits;
use crate::digits::char_val;
use crate::digits::dec_chars;
use crate::digits::dec_seq;
use crate::digits::digits_val;
use crate::digits::exec_char_val;
use crate::digits::exec_is_digit;
use crate::digits::is_digit;
use crate::digits::lemma_dec_seq_digits;
use crate::digits::lemma_dec_seq_len;
use crate::digits::lemma_digits_val_dec_seq;
use crate::digits::pow10;
use crate::digits::parse_u64_range;
use crate::digits::parse_uns;
use crate::digits::uns_ok;
use crate::digits::uns_val;
use crate::num::Concentration;
use crate::num::CONC_MAX_HUNDREDTHS;
use crate::digits::lemma_digits_val_nonneg;
use crate::text::is_space;
use crate::text::lemma_trim_back_drop;
use crate::text::lemma_trim_front_append;
use crate::text::lemma_trim_front_skip;
use crate::text::lemma_trim_front_spaces_only;
use crate::text::push_char;
use crate::text::push_chars;
use crate::text::trim_range;
use crate::text::trim_spec;

verus! {

/// The seven lamps of the instrument's indicator panel, in wire order.
#[derive(Clone, Copy, Debug, PartialEq, Eq, Structural)]
pub struct Indicator {
    pub in_progress: bool,
    pub fit_factor: bool,
    pub service: bool,
    pub low_particle: bool,
    pub low_battery: bool,
    pub fail: bool,
    pub pass: bool,
}

impl Indicator {
    pub fn empty() -> (r: Indicator)
        ensures
            r == (Indicator {
                in_progress: false,
                fit_factor: false,
                service: false,
                low_particle: false,
                low_battery: false,
                fail: false,
                pass: false,
            }),
    {
        Indicator {
            in_progress: false,
            fit_factor: false,
            service: false,
            low_particle: false,
            low_battery: false,
            fail: false,
            pass: false,
        }
    }
}

/// An outbound operation.
#[derive(Clone, Copy, Debug, PartialEq, Eq)]
pub enum Command {
    EnterExternalControl,
    ExitExternalControl,
    /// Duration in tenths of seconds; must be within 1..=60 when sending
    /// (the vendor documents 99, but hardware rejects values above 60).
    Beep { duration_deciseconds: u8 },
    /// `VN` - sample through the ambient tube.
    ValveAmbient,
    /// `VF` - sample through the specimen tube.
    ValveSpecimen,
    /// Exercise number shown on the display; must be within 0..=19 when
    /// sending.
    DisplayExercise(u8),
    DisplayConcentration(Concentration),
    Indicator(Indicator),
    ClearDisplay,
    RequestSettings,
}

#[derive(Debug, PartialEq)]
pub enum InvalidCommandError {
    OutOfRange { command: Command, allowed_range: std::ops::Range<usize> },
}

pub open spec fn bit_char(b: bool) -> char {
    if b {
        '1'
    } else {
        '0'
    }
}

pub open spec fn indicator_wire(ind: Indicator) -> Seq<char> {
    seq![
        'I',
        '0',
        bit_char(ind.in_progress),
        bit_char(ind.fit_factor),
        bit_char(ind.service),
        bit_char(ind.low_particle),
        bit_char(ind.low_battery),
        bit_char(ind.fail),
        bit_char(ind.pass),
    ]
}

/// A concentration of `h` hundredths rounded half away from zero to a whole
/// number of particles, as shown on the instrument's display.
pub open spec fn conc_rounded(h: int) -> int {
    (h + 50) / 100
}

/// Whether a command has a wire form; the others are out of range.
pub open spec fn encodable(c: Command) -> bool {
    match c {
        Command::Beep { duration_deciseconds: d } => 1 <= d <= 60,
        Command::DisplayExercise(n) => n <= 19,
        Command::DisplayConcentration(v) => v.as_hundredths() < 10000 || conc_rounded(
            v.as_hundredths(),
        ) <= 999_999_999,
        _ => true,
    }
}

/// The ASCII frame of an encodable command, without the trailing CR.
pub open spec fn wire_of(c: Command) -> Seq<char> {
    match c {
        Command::EnterExternalControl => seq!['J'],
        Command::ExitExternalControl => seq!['G'],
        Command::Beep { duration_deciseconds: d } => seq!['B'] + dec_seq(d as int, 2),
        Command::ValveAmbient => seq!['V', 'N'],
        Command::ValveSpecimen => seq!['V', 'F'],
        Command::DisplayExercise(n) => seq!['N'] + dec_seq(n as int, 2),
        Command::DisplayConcentration(v) => if v.as_hundredths() < 10000 {
            seq!['D'] + dec_seq(v.as_hundredths() / 100, 6) + seq!['.'] + dec_seq(
                v.as_hundredths() % 100,
                2,
            )
        } else {
            seq!['D'] + dec_seq(conc_rounded(v.as_hundredths()), 9)
        },
        Command::Indicator(ind) => indicator_wire(ind),
        Command::ClearDisplay => seq!['K'],
        Command::RequestSettings => seq!['S'],
    }
}

/// The error reported for a command outside its documented range.
pub open spec fn out_of_range_err(c: Command) -> InvalidCommandError {
    match c {
        Command::Beep { .. } => InvalidCommandError::OutOfRange {
            command: c,
            allowed_range: std::ops::Range { start: 1, end: 61 },
        },
        Command::DisplayExercise(_) => InvalidCommandError::OutOfRange {
            command: c,
            allowed_range: std::ops::Range { start: 0, end: 20 },
        },
        _ => InvalidCommandError::OutOfRange {
            command: c,
            allowed_range: std::ops::Range { start: 0, end: 999_999_999 },
        },
    }
}

fn exec_bit_char(b: bool) -> (c: char)
    ensures
        c == bit_char(b),
{
    if b {
        '1'
    } else {
        '0'
    }
}

impl Command {
    /// The ASCII frame for this command, or the out-of-range error when its
    /// parameter lies outside the documented range.
    pub fn to_wire(&self) -> (r: Result<String, InvalidCommandError>)
        ensures
            match r {
                Ok(s) => encodable(*self) && s@ == wire_of(*self),
                Err(e) => !encodable(*self) && e == out_of_range_err(*self),
            },
    {
        let mut s = String::new();
        match self {
            Command::EnterExternalControl => {
                push_char(&mut s, 'J');
                proof {
                    assert(s@ =~= wire_of(*self));
                }
                Ok(s)
            },
            Command::ExitExternalControl => {
                push_char(&mut s, 'G');
                proof {
                    assert(s@ =~= wire_of(*self));
                }
                Ok(s)
            },
            Command::Beep { duration_deciseconds: d } => {
                if 1 <= *d && *d <= 60 {
                    push_char(&mut s, 'B');
                    let digits = dec_chars(*d as u64, 2);
                    push_chars(&mut s, &digits);
                    proof {
                        assert(s@ =~= wire_of(*self));
                    }
                    Ok(s)
                } else {
                    Err(InvalidCommandError::OutOfRange {
                        command: *self,
                        allowed_range: std::ops::Range { start: 1, end: 61 },
                    })
                }
            },
            Command::ValveAmbient => {
                push_char(&mut s, 'V');
                push_char(&mut s, 'N');
                proof {
                    assert(s@ =~= wire_of(*self));
                }
                Ok(s)
            },
            Command::ValveSpecimen => {
                push_char(&mut s, 'V');
                push_char(&mut s, 'F');
                proof {
                    assert(s@ =~= wire_of(*self));
                }
                Ok(s)
            },
            Command::DisplayExercise(n) => {
                if *n <= 19 {
                    push_char(&mut s, 'N');
                    let digits = dec_chars(*n as u64, 2);
                    push_chars(&mut s, &digits);
                    proof {
                        assert(s@ =~= wire_of(*self));
                    }
                    Ok(s)
                } else {
                    Err(InvalidCommandError::OutOfRange {
                        command: *self,
                        allowed_range: std::ops::Range { start: 0, end: 20 },
                    })
                }
            },
            Command::DisplayConcentration(v) => {
                let h = v.hundredths();
                if h < 10000 {
                    push_char(&mut s, 'D');
                    let whole = dec_chars(h / 100, 6);
                    push_chars(&mut s, &whole);
                    push_char(&mut s, '.');
                    let frac = dec_chars(h % 100, 2);
                    push_chars(&mut s, &frac);
                    proof {
                        assert(s@ =~= wire_of(*self));
                    }
                    Ok(s)
                } else {
                    let rounded = (h + 50) / 100;
                    if rounded <= 999_999_999 {
                        push_char(&mut s, 'D');
                        let digits = dec_chars(rounded, 9);
                        push_chars(&mut s, &digits);
                        proof {
                            assert(s@ =~= wire_of(*self));
                        }
                        Ok(s)
                    } else {
                        Err(InvalidCommandError::OutOfRange {
                            command: *self,
                            allowed_range: std::ops::Range { start: 0, end: 999_999_999 },
                        })
                    }
                }
            },
            Command::Indicator(ind) => {
                push_char(&mut s, 'I');
                push_char(&mut s, '0');
                push_char(&mut s, exec_bit_char(ind.in_progress));
                push_char(&mut s, exec_bit_char(ind.fit_factor));
                push_char(&mut s, exec_bit_char(ind.service));
                push_char(&mut s, exec_bit_char(ind.low_particle));
                push_char(&mut s, exec_bit_char(ind.low_battery));
                push_char(&mut s, exec_bit_char(ind.fail));
                push_char(&mut s, exec_bit_char(ind.pass));
                proof {
                    assert(s@ =~= wire_of(*self));
                }
                Ok(s)
            },
            Command::ClearDisplay => {
                push_char(&mut s, 'K');
                proof {
                    assert(s@ =~= wire_of(*self));
                }
                Ok(s)
            },
            Command::RequestSettings => {
                push_char(&mut s, 'S');
                proof {
                    assert(s@ =~= wire_of(*self));
                }
                Ok(s)
            },
        }
    }
}

/// One message sent by the instrument: a sample, the echo of a command, a
/// settings line, or an error. The device mirrors many, but not all, of the
/// commands that it receives.
#[derive(Debug, PartialEq)]
pub enum Message {
    Response(Command),
    /// An error echo naming the offending command.
    ErrorResponse(Command),
    /// An error line whose content was not understood; kept for logging.
    UnknownError(String),
    Sample(Concentration),
    Setting(SettingMessage),
}

/// One line of the settings dump the instrument sends in response to the
/// request-settings command. Values are accepted permissively: the vendor's
/// documented ranges are not enforced here.
#[derive(Debug, PartialEq)]
pub enum SettingMessage {
    AmbientPurgeTime { seconds: usize },
    AmbientSampleTime { seconds: usize },
    MaskSamplePurgeTime { seconds: usize },
    MaskSampleTime { ex: usize, seconds: usize },
    FitFactorPassLevel { ex: usize, fit_factor: usize },
    /// Not always numeric.
    SerialNumber(String),
    RunTimeSinceService { decaminutes: usize },
    /// Year is modulo 100, as the device reports it.
    DateLastServiced { month: u8, year: u8 },
}

/// A line that was not understood. Equality considers the received line
/// only, so expected test vectors need not repeat the reason text.
#[derive(Debug)]
pub struct ParseError {
    pub received_message: String,
    pub reason: String,
}

impl PartialEq for ParseError {
    fn eq(&self, other: &Self) -> (r: bool) {
        self.received_message == other.received_message
    }
}

impl vstd::std_specs::cmp::PartialEqSpecImpl for ParseError {
    open spec fn obeys_eq_spec() -> bool {
        true
    }

    open spec fn eq_spec(&self, other: &ParseError) -> bool {
        self.received_message@ == other.received_message@
    }
}

/// Spec-level image of a parsed message, over plain values.
pub enum MessageModel {
    Sample(Concentration),
    Response(Command),
    UnknownError(Seq<char>),
    Setting(SettingModel),
}

/// Spec-level image of a parsed settings line.
pub enum SettingModel {
    AmbientPurgeTime { seconds: int },
    AmbientSampleTime { seconds: int },
    MaskSamplePurgeTime { seconds: int },
    MaskSampleTime { ex: int, seconds: int },
    FitFactorPassLevel { ex: int, fit_factor: int },
    SerialNumber(Seq<char>),
    RunTimeSinceService { decaminutes: int },
    DateLastServiced { month: int, year: int },
}

pub open spec fn setting_matches(sm: SettingMessage, m: SettingModel) -> bool {
    match (sm, m) {
        (
            SettingMessage::AmbientPurgeTime { seconds: a },
            SettingModel::AmbientPurgeTime { seconds: b },
        ) => a == b,
        (
            SettingMessage::AmbientSampleTime { seconds: a },
            SettingModel::AmbientSampleTime { seconds: b },
        ) => a == b,
        (
            SettingMessage::MaskSamplePurgeTime { seconds: a },
            SettingModel::MaskSamplePurgeTime { seconds: b },
        ) => a == b,
        (
            SettingMessage::MaskSampleTime { ex: xa, seconds: a },
            SettingModel::MaskSampleTime { ex: xb, seconds: b },
        ) => xa == xb && a == b,
        (
            SettingMessage::FitFactorPassLevel { ex: xa, fit_factor: a },
            SettingModel::FitFactorPassLevel { ex: xb, fit_factor: b },
        ) => xa == xb && a == b,
        (SettingMessage::SerialNumber(a), SettingModel::SerialNumber(b)) => a@ == b,
        (
            SettingMessage::RunTimeSinceService { decaminutes: a },
            SettingModel::RunTimeSinceService { decaminutes: b },
        ) => a == b,
        (
            SettingMessage::DateLastServiced { month: ma, year: ya },
            SettingModel::DateLastServiced { month: mb, year: yb },
        ) => ma == mb && ya == yb,
        _ => false,
    }
}

pub open spec fn message_matches(msg: Message, m: MessageModel) -> bool {
    match (msg, m) {
        (Message::Sample(a), MessageModel::Sample(b)) => a == b,
        (Message::Response(a), MessageModel::Response(b)) => a == b,
        (Message::UnknownError(a), MessageModel::UnknownError(b)) => a@ == b,
        (Message::Setting(a), MessageModel::Setting(b)) => setting_matches(a, b),
        _ => false,
    }
}

/// Index of the first `.` in `s`, or `s.len()` when there is none.
pub open spec fn dot_index(s: Seq<char>) -> int
    decreases s.len(),
{
    if s.len() == 0 {
        0
    } else if s[0] == '.' {
        0
    } else {
        1 + dot_index(s.drop_first())
    }
}

/// A decimal numeral with at most one point and at least one digit.
pub open spec fn fixed2_ok(s: Seq<char>) -> bool {
    let d = dot_index(s);
    (forall|i: int| 0 <= i < s.len() && i != d ==> is_digit(#[trigger] s[i])) && s.len() - (
    if d < s.len() {
        1int
    } else {
        0int
    }) >= 1
}

/// Value of such a numeral in hundredths; fractional digits beyond the
/// second are dropped.
pub open spec fn fixed2_val(s: Seq<char>) -> int {
    let d = dot_index(s);
    let whole = digits_val(s.subrange(0, d));
    let frac = if d < s.len() {
        s.skip(d + 1)
    } else {
        Seq::<char>::empty()
    };
    whole * 100 + (if frac.len() >= 1 {
        char_val(frac[0]) * 10
    } else {
        0int
    }) + (if frac.len() >= 2 {
        char_val(frac[1])
    } else {
        0int
    })
}

pub open spec fn has_prefix(s: Seq<char>, p: Seq<char>) -> bool {
    p.len() <= s.len() && s.subrange(0, p.len() as int) == p
}

/// What the command parser accepts, in its order of discrimination.
pub open spec fn parse_command_spec(s: Seq<char>) -> Option<Command> {
    if s == seq!['V', 'N'] {
        Some(Command::ValveAmbient)
    } else if s == seq!['V', 'F'] || s == seq!['V', 'O'] {
        // The vendor documents `VO`, hardware echoes `VF`; both accepted.
        Some(Command::ValveSpecimen)
    } else if s == seq!['O', 'K'] {
        // The echo of entering external control does not match the command.
        Some(Command::EnterExternalControl)
    } else if s == seq!['G'] {
        Some(Command::ExitExternalControl)
    } else if s == seq!['K'] {
        Some(Command::ClearDisplay)
    } else if s.len() >= 1 && s[0] == 'B' {
        if uns_ok(s.skip(1)) && uns_val(s.skip(1)) <= 255 {
            Some(Command::Beep { duration_deciseconds: uns_val(s.skip(1)) as u8 })
        } else {
            None
        }
    } else if s.len() >= 1 && s[0] == 'N' {
        if uns_ok(s.skip(1)) && uns_val(s.skip(1)) <= 255 {
            Some(Command::DisplayExercise(uns_val(s.skip(1)) as u8))
        } else {
            None
        }
    } else if s.len() >= 1 && s[0] == 'D' {
        if fixed2_ok(s.skip(1)) && fixed2_val(s.skip(1)) <= CONC_MAX_HUNDREDTHS {
            Some(
                Command::DisplayConcentration(
                    Concentration::spec_from_hundredths(fixed2_val(s.skip(1))),
                ),
            )
        } else {
            None
        }
    } else if s.len() >= 1 && s[0] == 'I' {
        if s.len() == 9 {
            Some(
                Command::Indicator(
                    Indicator {
                        in_progress: s[2] == '1',
                        fit_factor: s[3] == '1',
                        service: s[4] == '1',
                        low_particle: s[5] == '1',
                        low_battery: s[6] == '1',
                        fail: s[7] == '1',
                        pass: s[8] == '1',
                    },
                ),
            )
        } else {
            None
        }
    } else {
        None
    }
}

/// What the settings parser accepts: longest prefix first, numeric tails
/// trimmed and read permissively.
pub open spec fn parse_setting_spec(s: Seq<char>) -> Option<SettingModel> {
    if has_prefix(s, seq!['S', 'T', 'P', 'A']) {
        let t = trim_spec(s.skip(4));
        if uns_ok(t) && uns_val(t) <= usize::MAX {
            Some(SettingModel::AmbientPurgeTime { seconds: uns_val(t) })
        } else {
            None
        }
    } else if has_prefix(s, seq!['S', 'T', 'A']) {
        let t = trim_spec(s.skip(3));
        if uns_ok(t) && uns_val(t) <= usize::MAX {
            Some(SettingModel::AmbientSampleTime { seconds: uns_val(t) })
        } else {
            None
        }
    } else if has_prefix(s, seq!['S', 'T', 'P', 'M']) {
        let t = trim_spec(s.skip(4));
        if uns_ok(t) && uns_val(t) <= usize::MAX {
            Some(SettingModel::MaskSamplePurgeTime { seconds: uns_val(t) })
        } else {
            None
        }
    } else if has_prefix(s, seq!['S', 'T', 'M']) {
        let t = trim_spec(s.skip(3));
        if t.len() > 2 && uns_ok(t.subrange(0, 2)) && uns_val(t.subrange(0, 2)) <= usize::MAX
            && uns_ok(t.skip(2)) && uns_val(t.skip(2)) <= usize::MAX {
            Some(
                SettingModel::MaskSampleTime {
                    ex: uns_val(t.subrange(0, 2)),
                    seconds: uns_val(t.skip(2)),
                },
            )
        } else {
            None
        }
    } else if has_prefix(s, seq!['S', 'P']) {
        let t = trim_spec(s.skip(2));
        if t.len() > 2 && uns_ok(t.subrange(0, 2)) && uns_val(t.subrange(0, 2)) <= usize::MAX
            && uns_ok(t.skip(2)) && uns_val(t.skip(2)) <= usize::MAX {
            Some(
                SettingModel::FitFactorPassLevel {
                    ex: uns_val(t.subrange(0, 2)),
                    fit_factor: uns_val(t.skip(2)),
                },
            )
        } else {
            None
        }
    } else if has_prefix(s, seq!['S', 'S']) {
        Some(SettingModel::SerialNumber(trim_spec(s.skip(2))))
    } else if has_prefix(s, seq!['S', 'R']) {
        let t = trim_spec(s.skip(2));
        if uns_ok(t) && uns_val(t) <= usize::MAX {
            Some(SettingModel::RunTimeSinceService { decaminutes: uns_val(t) })
        } else {
            None
        }
    } else if has_prefix(s, seq!['S', 'D']) {
        let t = trim_spec(s.skip(2));
        if uns_ok(t) && uns_val(t) <= 9999 && uns_val(t) / 100 <= 12 {
            Some(
                SettingModel::DateLastServiced { month: uns_val(t) / 100, year: uns_val(t) % 100 },
            )
        } else {
            None
        }
    } else {
        None
    }
}

/// What the message parser accepts: samples first (numeric frames dominate
/// the line rate), then error lines, settings, and command echoes.
pub open spec fn parse_message_spec(s: Seq<char>) -> Option<MessageModel> {
    if s.len() == 0 {
        None
    } else if is_digit(s[0]) {
        if fixed2_ok(s) && fixed2_val(s) <= CONC_MAX_HUNDREDTHS {
            Some(MessageModel::Sample(Concentration::spec_from_hundredths(fixed2_val(s))))
        } else {
            None
        }
    } else if s[0] == 'E' {
        Some(MessageModel::UnknownError(s))
    } else if s[0] == 'S' {
        match parse_setting_spec(s) {
            Some(m) => Some(MessageModel::Setting(m)),
            None => None,
        }
    } else {
        match parse_command_spec(s) {
            Some(c) => Some(MessageModel::Response(c)),
            None => None,
        }
    }
}

proof fn lemma_dot_index_at(s: Seq<char>, k: int)
    requires
        0 <= k <= s.len(),
        forall|i: int| 0 <= i < k ==> #[trigger] s[i] != '.',
        k < s.len() ==> s[k] == '.',
    ensures
        dot_index(s) == k,
    decreases k,
{
    if s.len() > 0 && s[0] != '.' {
        assert(k >= 1);
        let d = s.drop_first();
        assert forall|i: int| 0 <= i < k - 1 implies #[trigger] d[i] != '.' by {
            assert(d[i] == s[i + 1]);
        }
        lemma_dot_index_at(d, k - 1);
    }
}

/// Parses `s@[from..]` as a decimal numeral with at most one point, into a
/// concentration in hundredths; `None` when malformed or out of range.
fn parse_fixed2(s: &str, from: usize) -> (r: Option<Concentration>)
    requires
        from <= s@.len(),
    ensures
        ({
            let t = s@.skip(from as int);
            match r {
                Some(c) => fixed2_ok(t) && fixed2_val(t) <= CONC_MAX_HUNDREDTHS && c
                    == Concentration::spec_from_hundredths(fixed2_val(t)),
                None => !(fixed2_ok(t) && fixed2_val(t) <= CONC_MAX_HUNDREDTHS),
            }
        }),
{
    let ghost t = s@.skip(from as int);
    let n = s.unicode_len();
    let mut k: usize = from;
    while k < n && s.get_char(k) != '.'
        invariant
            from <= k <= n == s@.len(),
            forall|i: int| from <= i < k ==> #[trigger] s@[i] != '.',
        decreases n - k,
    {
        k = k + 1;
    }
    proof {
        assert forall|i: int| 0 <= i < k - from implies #[trigger] t[i] != '.' by {
            assert(t[i] == s@[from + i]);
        }
        if (k - from) < t.len() {
            assert(t[k - from] == s@[k as int]);
        }
        lemma_dot_index_at(t, k - from);
    }
    let ghost d = k - from;
    if n == from || (k < n && n - from == 1) {
        // no digit positions at all
        return None;
    }
    // every character after the point must be a digit
    let mut i: usize = if k < n {
        k + 1
    } else {
        n
    };
    while i < n
        invariant
            t == s@.skip(from as int),
            from <= k <= n == s@.len(),
            d == k - from,
            dot_index(t) == d,
            k < n ==> k + 1 <= i,
            k == n ==> i == n,
            i <= n,
            forall|j: int| k < j < i ==> is_digit(#[trigger] s@[j]),
        decreases n - i,
    {
        if !exec_is_digit(s.get_char(i)) {
            proof {
                assert(t[i - from] == s@[i as int]);
                assert(!fixed2_ok(t));
            }
            return None;
        }
        i = i + 1;
    }
    // the whole part
    let whole: u64 = if k == from {
        proof {
            assert(t.subrange(0, 0) =~= Seq::<char>::empty());
        }
        0
    } else {
        proof {
            assert(t.subrange(0, d as int) =~= s@.subrange(from as int, k as int));
        }
        match parse_u64_range(s, from, k) {
            Some(v) => v,
            None => {
                proof {
                    let ip = t.subrange(0, d as int);
                    if fixed2_ok(t) {
                        assert forall|j: int| 0 <= j < ip.len() implies is_digit(
                            #[trigger] ip[j],
                        ) by {
                            assert(ip[j] == t[j]);
                        }
                        // the whole part alone already exceeds the range
                        assert(digits_val(ip) > u64::MAX);
                        assert(digits_val(ip) * 100 >= digits_val(ip)) by (nonlinear_arith)
                            requires
                                digits_val(ip) >= 0,
                        ;
                        assert(fixed2_val(t) > CONC_MAX_HUNDREDTHS);
                    }
                }
                return None;
            },
        }
    };
    // the first two fractional digits
    let mut f2: u64 = 0;
    if n - k > 1 {
        f2 = exec_char_val(s.get_char(k + 1)) * 10;
        proof {
            assert(t.skip(d + 1)[0] == s@[k + 1]);
        }
    }
    if n - k > 2 {
        f2 = f2 + exec_char_val(s.get_char(k + 2));
        proof {
            assert(t.skip(d + 1)[1] == s@[k + 2]);
        }
    }
    proof {
        let ip = t.subrange(0, d as int);
        lemma_digits_val_nonneg(ip);
        assert(whole * 100 >= 0) by (nonlinear_arith)
            requires
                whole >= 0,
        ;
    }
    if whole > CONC_MAX_HUNDREDTHS / 100 {
        proof {
            assert(whole * 100 > CONC_MAX_HUNDREDTHS) by (nonlinear_arith)
                requires
                    whole > CONC_MAX_HUNDREDTHS / 100,
            ;
        }
        return None;
    }
    let tot = whole * 100 + f2;
    if tot > CONC_MAX_HUNDREDTHS {
        return None;
    }
    proof {
        assert(fixed2_ok(t)) by {
            assert forall|j: int| 0 <= j < t.len() && j != d implies is_digit(#[trigger] t[j]) by {
                if j < d {
                    let ip = t.subrange(0, d as int);
                    assert(ip[j] == t[j]);
                } else {
                    assert(t[j] == s@[from + j]);
                }
            }
        }
        assert(fixed2_val(t) == tot);
    }
    match Concentration::from_hundredths(tot) {
        Some(c) => Some(c),
        None => {
            proof {
                assert(false);
            }
            None
        },
    }
}

/// Builds a parse error that preserves the offending line and always
/// carries a non-empty reason.
fn parse_error(line: &str, reason: &str) -> (e: ParseError)
    ensures
        e.received_message@ == line@,
        e.reason@.len() > 0,
{
    let text = if reason.unicode_len() > 0 {
        reason.to_owned()
    } else {
        proof {
            reveal_strlit("unparseable message");
        }
        "unparseable message".to_owned()
    };
    ParseError { received_message: line.to_owned(), reason: text }
}

/// The command-echo parser: exact frames first, then parameterised
/// prefixes, read permissively.
fn parse_command(s: &str) -> (r: Result<Command, ParseError>)
    ensures
        match r {
            Ok(c) => parse_command_spec(s@) == Some(c),
            Err(e) => parse_command_spec(s@) is None && e.received_message@ == s@ && e.reason@
                .len() > 0,
        },
{
    let n = s.unicode_len();
    if n == 2 {
        let c0 = s.get_char(0);
        let c1 = s.get_char(1);
        if c0 == 'V' && c1 == 'N' {
            proof {
                assert(s@ =~= seq!['V', 'N']);
            }
            return Ok(Command::ValveAmbient);
        }
        if c0 == 'V' && (c1 == 'F' || c1 == 'O') {
            proof {
                if c1 == 'F' {
                    assert(s@ =~= seq!['V', 'F']);
                } else {
                    assert(s@ =~= seq!['V', 'O']);
                }
            }
            return Ok(Command::ValveSpecimen);
        }
        if c0 == 'O' && c1 == 'K' {
            proof {
                assert(s@ =~= seq!['O', 'K']);
            }
            return Ok(Command::EnterExternalControl);
        }
    }
    if n == 1 {
        let c0 = s.get_char(0);
        if c0 == 'G' {
            proof {
                assert(s@ =~= seq!['G']);
            }
            return Ok(Command::ExitExternalControl);
        }
        if c0 == 'K' {
            proof {
                assert(s@ =~= seq!['K']);
            }
            return Ok(Command::ClearDisplay);
        }
    }
    if n >= 1 {
        let c0 = s.get_char(0);
        if c0 == 'B' {
            proof {
                assert(s@.skip(1) =~= s@.subrange(1, n as int));
            }
            return match parse_uns(s, 1, n, 255) {
                Some(v) => Ok(Command::Beep { duration_deciseconds: v as u8 }),
                None => Err(parse_error(s, "unable to parse beep duration")),
            };
        }
        if c0 == 'N' {
            proof {
                assert(s@.skip(1) =~= s@.subrange(1, n as int));
            }
            return match parse_uns(s, 1, n, 255) {
                Some(v) => Ok(Command::DisplayExercise(v as u8)),
                None => Err(parse_error(s, "unable to parse exercise number")),
            };
        }
        if c0 == 'D' {
            return match parse_fixed2(s, 1) {
                Some(c) => Ok(Command::DisplayConcentration(c)),
                None => Err(parse_error(s, "unable to parse display-concentration command")),
            };
        }
        if c0 == 'I' {
            if n != 9 {
                return Err(parse_error(s, "unable to parse indicator with unexpected length"));
            }
            return Ok(
                Command::Indicator(
                    Indicator {
                        in_progress: s.get_char(2) == '1',
                        fit_factor: s.get_char(3) == '1',
                        service: s.get_char(4) == '1',
                        low_particle: s.get_char(5) == '1',
                        low_battery: s.get_char(6) == '1',
                        fail: s.get_char(7) == '1',
                        pass: s.get_char(8) == '1',
                    },
                ),
            );
        }
    }
    Err(parse_error(s, "unknown or unsupported command"))
}

/// The settings parser: longest prefix first; the numeric tail is trimmed
/// and read permissively, composite codes carry a two-character exercise
/// index.
fn parse_setting(s: &str) -> (r: Result<SettingMessage, ParseError>)
    ensures
        match r {
            Ok(m) => match parse_setting_spec(s@) {
                Some(model) => setting_matches(m, model),
                None => false,
            },
            Err(e) => parse_setting_spec(s@) is None && e.received_message@ == s@ && e.reason@
                .len() > 0,
        },
{
    let n = s.unicode_len();
    if n >= 4 && s.get_char(0) == 'S' && s.get_char(1) == 'T' && s.get_char(2) == 'P'
        && s.get_char(3) == 'A' {
        proof {
            assert(s@.subrange(0, 4) =~= seq!['S', 'T', 'P', 'A']);
            assert(s@.skip(4) =~= s@.subrange(4, n as int));
        }
        let bounds = trim_range(s, 4, n);
        return match parse_uns(s, bounds.0, bounds.1, usize::MAX as u64) {
            Some(v) => Ok(SettingMessage::AmbientPurgeTime { seconds: v as usize }),
            None => Err(parse_error(s, "unable to parse ambient purge time")),
        };
    }
    if n >= 3 && s.get_char(0) == 'S' && s.get_char(1) == 'T' && s.get_char(2) == 'A' {
        proof {
            assert(s@.subrange(0, 3) =~= seq!['S', 'T', 'A']);
            assert(s@.skip(3) =~= s@.subrange(3, n as int));
        }
        let bounds = trim_range(s, 3, n);
        return match parse_uns(s, bounds.0, bounds.1, usize::MAX as u64) {
            Some(v) => Ok(SettingMessage::AmbientSampleTime { seconds: v as usize }),
            None => Err(parse_error(s, "unable to parse ambient sample time")),
        };
    }
    if n >= 4 && s.get_char(0) == 'S' && s.get_char(1) == 'T' && s.get_char(2) == 'P'
        && s.get_char(3) == 'M' {
        proof {
            assert(s@.subrange(0, 4) =~= seq!['S', 'T', 'P', 'M']);
            assert(s@.skip(4) =~= s@.subrange(4, n as int));
        }
        let bounds = trim_range(s, 4, n);
        return match parse_uns(s, bounds.0, bounds.1, usize::MAX as u64) {
            Some(v) => Ok(SettingMessage::MaskSamplePurgeTime { seconds: v as usize }),
            None => Err(parse_error(s, "unable to parse mask sample purge time")),
        };
    }
    if n >= 3 && s.get_char(0) == 'S' && s.get_char(1) == 'T' && s.get_char(2) == 'M' {
        proof {
            assert(s@.subrange(0, 3) =~= seq!['S', 'T', 'M']);
            assert(s@.skip(3) =~= s@.subrange(3, n as int));
        }
        let bounds = trim_range(s, 3, n);
        let ghost t = trim_spec(s@.skip(3));
        if bounds.1 - bounds.0 > 2 {
            proof {
                assert(t.subrange(0, 2) =~= s@.subrange(bounds.0 as int, bounds.0 + 2));
                assert(t.skip(2) =~= s@.subrange(bounds.0 + 2, bounds.1 as int));
            }
            let ex = parse_uns(s, bounds.0, bounds.0 + 2, usize::MAX as u64);
            let seconds = parse_uns(s, bounds.0 + 2, bounds.1, usize::MAX as u64);
            if let Some(e) = ex {
                if let Some(v) = seconds {
                    return Ok(
                        SettingMessage::MaskSampleTime { ex: e as usize, seconds: v as usize },
                    );
                }
            }
        }
        return Err(parse_error(s, "unable to parse mask sample time"));
    }
    if n >= 2 && s.get_char(0) == 'S' && s.get_char(1) == 'P' {
        proof {
            assert(s@.subrange(0, 2) =~= seq!['S', 'P']);
            assert(s@.skip(2) =~= s@.subrange(2, n as int));
        }
        let bounds = trim_range(s, 2, n);
        let ghost t = trim_spec(s@.skip(2));
        if bounds.1 - bounds.0 > 2 {
            proof {
                assert(t.subrange(0, 2) =~= s@.subrange(bounds.0 as int, bounds.0 + 2));
                assert(t.skip(2) =~= s@.subrange(bounds.0 + 2, bounds.1 as int));
            }
            let ex = parse_uns(s, bounds.0, bounds.0 + 2, usize::MAX as u64);
            let level = parse_uns(s, bounds.0 + 2, bounds.1, usize::MAX as u64);
            if let Some(e) = ex {
                if let Some(v) = level {
                    return Ok(
                        SettingMessage::FitFactorPassLevel { ex: e as usize, fit_factor: v as usize },
                    );
                }
            }
        }
        return Err(parse_error(s, "unable to parse fit factor pass level"));
    }
    if n >= 2 && s.get_char(0) == 'S' && s.get_char(1) == 'S' {
        proof {
            assert(s@.subrange(0, 2) =~= seq!['S', 'S']);
            assert(s@.skip(2) =~= s@.subrange(2, n as int));
        }
        let bounds = trim_range(s, 2, n);
        let serial = s.substring_char(bounds.0, bounds.1);
        return Ok(SettingMessage::SerialNumber(serial.to_owned()));
    }
    if n >= 2 && s.get_char(0) == 'S' && s.get_char(1) == 'R' {
        proof {
            assert(s@.subrange(0, 2) =~= seq!['S', 'R']);
            assert(s@.skip(2) =~= s@.subrange(2, n as int));
        }
        let bounds = trim_range(s, 2, n);
        return match parse_uns(s, bounds.0, bounds.1, usize::MAX as u64) {
            Some(v) => Ok(SettingMessage::RunTimeSinceService { decaminutes: v as usize }),
            None => Err(parse_error(s, "unable to parse run time since last service")),
        };
    }
    if n >= 2 && s.get_char(0) == 'S' && s.get_char(1) == 'D' {
        proof {
            assert(s@.subrange(0, 2) =~= seq!['S', 'D']);
            assert(s@.skip(2) =~= s@.subrange(2, n as int));
        }
        let bounds = trim_range(s, 2, n);
        if let Some(v) = parse_uns(s, bounds.0, bounds.1, u64::MAX) {
            if v <= 9999 {
                let month = v / 100;
                if month <= 12 {
                    return Ok(
                        SettingMessage::DateLastServiced {
                            month: month as u8,
                            year: (v % 100) as u8,
                        },
                    );
                }
            }
        }
        return Err(parse_error(s, "unable to parse date last serviced"));
    }
    Err(parse_error(s, "unknown or unsupported command"))
}

/// Parses one trimmed line from the instrument. An error names the line it
/// could not read; it does not indicate any problem with the device.
pub fn parse_message(message: &str) -> (r: Result<Message, ParseError>)
    ensures
        match r {
            Ok(m) => match parse_message_spec(message@) {
                Some(model) => message_matches(m, model),
                None => false,
            },
            Err(e) => parse_message_spec(message@) is None && e.received_message@ == message@
                && e.reason@.len() > 0,
        },
{
    let n = message.unicode_len();
    if n == 0 {
        return Err(parse_error(message, "received empty message"));
    }
    let c0 = message.get_char(0);
    if exec_is_digit(c0) {
        proof {
            assert(message@.skip(0) =~= message@);
        }
        return match parse_fixed2(message, 0) {
            Some(c) => Ok(Message::Sample(c)),
            None => Err(parse_error(message, "unable to parse sample")),
        };
    }
    if c0 == 'E' {
        return Ok(Message::UnknownError(message.to_owned()));
    }
    if c0 == 'S' {
        return match parse_setting(message) {
            Ok(sm) => Ok(Message::Setting(sm)),
            Err(e) => Err(e),
        };
    }
    match parse_command(message) {
        Ok(c) => Ok(Message::Response(c)),
        Err(e) => Err(e),
    }
}

/// Trims a raw CR/LF-delimited line and parses it.
pub fn parse_line(raw: &str) -> (r: Result<Message, ParseError>)
    ensures
        match r {
            Ok(m) => match parse_message_spec(trim_spec(raw@)) {
                Some(model) => message_matches(m, model),
                None => false,
            },
            Err(e) => parse_message_spec(trim_spec(raw@)) is None && e.received_message@
                == trim_spec(raw@) && e.reason@.len() > 0,
        },
{
    let n = raw.unicode_len();
    proof {
        assert(raw@.subrange(0, n as int) =~= raw@);
    }
    let bounds = trim_range(raw, 0, n);
    let line = raw.substring_char(bounds.0, bounds.1);
    parse_message(line)
}

/// The commands whose frames read back as themselves. Left out: entering
/// external control (sent as `J`, echoed as `OK`), the settings request
/// (`S` opens the settings dialect on the way back), and fractional
/// concentrations of 100 or more, which the display rounds to a whole
/// number.
pub open spec fn round_trips(c: Command) -> bool {
    match c {
        Command::EnterExternalControl | Command::RequestSettings => false,
        Command::DisplayConcentration(v) => v.as_hundredths() < 10000 || (v.as_hundredths() % 100
            == 0 && conc_rounded(v.as_hundredths()) <= 999_999_999),
        _ => true,
    }
}

/// Command round trip: parsing the frame of an encodable command yields the
/// command back as a response echo.
#[verifier::rlimit(100)]
#[verifier::spinoff_prover]
pub proof fn law_command_round_trip(c: Command)
    requires
        encodable(c),
        round_trips(c),
    ensures
        parse_message_spec(wire_of(c)) == Some(MessageModel::Response(c)),
{
    let w = wire_of(c);
    match c {
        Command::ExitExternalControl => {
            assert(w =~= seq!['G']);
        },
        Command::ValveAmbient => {
            assert(w =~= seq!['V', 'N']);
        },
        Command::ValveSpecimen => {
            assert(w =~= seq!['V', 'F']);
        },
        Command::ClearDisplay => {
            assert(w =~= seq!['K']);
        },
        Command::Beep { duration_deciseconds: d } => {
            let t = dec_seq(d as int, 2);
            lemma_dec_seq_len(d as int, 2);
            lemma_dec_seq_digits(d as int, 2);
            lemma_digits_val_dec_seq(d as int, 2);
            crate::digits::lemma_pow10_values();
            assert(w.skip(1) =~= t);
            assert(uns_val(t) == d);
            assert(parse_command_spec(w) == Some(c));
        },
        Command::DisplayExercise(n) => {
            let t = dec_seq(n as int, 2);
            lemma_dec_seq_len(n as int, 2);
            lemma_dec_seq_digits(n as int, 2);
            lemma_digits_val_dec_seq(n as int, 2);
            crate::digits::lemma_pow10_values();
            assert(w.skip(1) =~= t);
            assert(uns_val(t) == n);
            assert(parse_command_spec(w) == Some(c));
        },
        Command::Indicator(ind) => {
            assert(w.len() == 9 && w[0] == 'I');
            assert(parse_command_spec(w) == Some(c));
        },
        Command::DisplayConcentration(v) => {
            let h = v.as_hundredths();
            v.lemma_nonneg();
            if h < 10000 {
                let d6 = dec_seq(h / 100, 6);
                let d2 = dec_seq(h % 100, 2);
                let t = d6 + seq!['.'] + d2;
                lemma_dec_seq_len(h / 100, 6);
                lemma_dec_seq_len(h % 100, 2);
                lemma_dec_seq_digits(h / 100, 6);
                lemma_dec_seq_digits(h % 100, 2);
                assert(w.skip(1) =~= t);
                assert forall|i: int| 0 <= i < 6 implies #[trigger] t[i] != '.' by {
                    assert(t[i] == d6[i]);
                    assert(is_digit(d6[i]));
                }
                lemma_dot_index_at(t, 6);
                assert(fixed2_ok(t)) by {
                    assert forall|i: int| 0 <= i < t.len() && i != 6 implies is_digit(
                        #[trigger] t[i],
                    ) by {
                        if i < 6 {
                            assert(t[i] == d6[i]);
                        } else {
                            assert(t[i] == d2[i - 7]);
                        }
                    }
                }
                lemma_digits_val_dec_seq(h / 100, 6);
                lemma_digits_val_dec_seq(h % 100, 2);
                crate::digits::lemma_pow10_values();
                assert(h / 100 < 1000000 && h % 100 < 100) by (nonlinear_arith)
                    requires
                        0 <= h < 10000,
                ;
                vstd::arithmetic::div_mod::lemma_small_mod((h / 100) as nat, 1000000nat);
                vstd::arithmetic::div_mod::lemma_small_mod((h % 100) as nat, 100nat);
                let frac = t.skip(7);
                assert(frac =~= d2);
                assert(digits_val(d2) == char_val(d2[0]) * 10 + char_val(d2[1])) by {
                    assert(d2.drop_last() =~= dec_seq(h % 100 / 10, 1));
                    assert(dec_seq(h % 100 / 10, 1).drop_last() =~= Seq::<char>::empty());
                }
                assert(fixed2_val(t) == (h / 100) * 100 + h % 100) by {
                    assert(t.subrange(0, 6) =~= d6);
                }
                vstd::arithmetic::div_mod::lemma_fundamental_div_mod(h, 100);
                assert(fixed2_val(t) == h);
                Concentration::lemma_spec_from_hundredths(h);
                Concentration::lemma_value_injective(v, Concentration::spec_from_hundredths(h));
                assert(parse_command_spec(w) == Some(c));
            } else {
                let r = conc_rounded(h);
                assert(r == h / 100) by {
                    vstd::arithmetic::div_mod::lemma_fundamental_div_mod(h, 100);
                    assert((h + 50) / 100 == h / 100) by (nonlinear_arith)
                        requires
                            h % 100 == 0,
                            h >= 0,
                    ;
                }
                let d9 = dec_seq(r, 9);
                lemma_dec_seq_len(r, 9);
                lemma_dec_seq_digits(r, 9);
                lemma_digits_val_dec_seq(r, 9);
                let t = d9;
                assert(w.skip(1) =~= t);
                assert forall|i: int| 0 <= i < 9 implies #[trigger] t[i] != '.' by {
                    assert(is_digit(t[i]));
                }
                lemma_dot_index_at(t, 9);
                assert(fixed2_ok(t));
                crate::digits::lemma_pow10_values();
                vstd::arithmetic::div_mod::lemma_small_mod(r as nat, 1000000000nat);
                assert(digits_val(d9) == r);
                assert(fixed2_val(t) == r * 100) by {
                    assert(t.subrange(0, 9) =~= d9);
                }
                vstd::arithmetic::div_mod::lemma_fundamental_div_mod(h, 100);
                assert(fixed2_val(t) == h);
                Concentration::lemma_spec_from_hundredths(h);
                Concentration::lemma_value_injective(v, Concentration::spec_from_hundredths(h));
                assert(parse_command_spec(w) == Some(c));
            }
        },
        _ => {},
    }
}

/// Padding a line with CR/LF or blanks does not change what it parses to.
pub proof fn law_parse_padding_invariant(line: Seq<char>, front: Seq<char>, back: Seq<char>)
    requires
        forall|i: int| 0 <= i < front.len() ==> is_space(#[trigger] front[i]),
        forall|i: int| 0 <= i < back.len() ==> is_space(#[trigger] back[i]),
    ensures
        trim_spec(front + line + back) == trim_spec(line),
        parse_message_spec(trim_spec(front + line + back)) == parse_message_spec(trim_spec(line)),
{
    let p = front + line + back;
    assert forall|i: int| 0 <= i < front.len() implies is_space(#[trigger] p[i]) by {
        assert(p[i] == front[i]);
    }
    lemma_trim_front_skip(p, front.len() as int);
    assert(p.subrange(front.len() as int, p.len() as int) =~= line + back);
    let tf = crate::text::trim_front(line);
    if tf.len() == 0 {
        lemma_trim_front_spaces_only(line);
        assert forall|i: int| 0 <= i < (line + back).len() implies is_space(
            #[trigger] (line + back)[i],
        ) by {
            if i < line.len() {
                assert((line + back)[i] == line[i]);
            } else {
                assert((line + back)[i] == back[i - line.len()]);
            }
        }
        lemma_trim_front_skip(line + back, (line + back).len() as int);
        assert((line + back).subrange((line + back).len() as int, (line + back).len() as int)
            =~= Seq::<char>::empty());
    } else {
        lemma_trim_front_append(line, back);
        assert forall|i: int| tf.len() <= i < (tf + back).len() implies is_space(
            #[trigger] (tf + back)[i],
        ) by {
            assert((tf + back)[i] == back[i - tf.len()]);
        }
        lemma_trim_back_drop(tf + back, tf.len() as int);
        assert((tf + back).subrange(0, tf.len() as int) =~= tf);
    }
}

} // verus!

