//! Typed test-protocol configurations: the stage sequence, a permissive
//! CSV-like loader, and the structural validator.

use vstd::prelude::*;

use crate::digits::all_digits;
use crate::digits::dec_chars;
use crate::digits::dec_seq;
use crate::digits::is_digit;
use crate::digits::lemma_dec_seq_digits;
use crate::digits::lemma_dec_seq_len;
use crate::digits::lemma_digits_val_dec_seq;
use crate::digits::lemma_pow10_values;
use crate::digits::parse_uns;
use crate::digits::uns_ok;
use crate::digits::uns_val;
use crate::text::find_char;
use crate::text::is_space;
use crate::text::lemma_trim_back_clean;
use crate::text::lemma_trim_front_clean;
use crate::text::lemma_find_char_at;
use crate::text::push_char;
use crate::text::str_eq_str;
use crate::text::string_views;
use crate::text::strings_match;
use crate::text::trim_range;
use crate::text::trim_spec;

verus! {

/// How many samples a stage discards (purges) and how many it keeps.
#[derive(Clone, Copy, Debug, PartialEq, Eq, Structural)]
pub struct StageCounts {
    pub purge_count: u8,
    pub sample_count: u16,
}

/// One stage of a fit test: an ambient reference measurement, or a scripted
/// exercise sampled through the mask.
#[derive(Clone, Debug, PartialEq)]
pub enum TestStage {
    AmbientSample { counts: StageCounts },
    Exercise { name: String, counts: StageCounts },
}

impl TestStage {
    pub open spec fn spec_is_ambient_sample(&self) -> bool {
        self matches TestStage::AmbientSample { .. }
    }

    pub open spec fn spec_is_exercise(&self) -> bool {
        self matches TestStage::Exercise { .. }
    }

    pub open spec fn spec_counts(&self) -> StageCounts {
        match self {
            TestStage::AmbientSample { counts } => *counts,
            TestStage::Exercise { counts, .. } => *counts,
        }
    }

    #[verifier::when_used_as_spec(spec_is_ambient_sample)]
    pub fn is_ambient_sample(&self) -> (r: bool)
        ensures
            r == self.spec_is_ambient_sample(),
    {
        matches!(self, TestStage::AmbientSample { .. })
    }

    #[verifier::when_used_as_spec(spec_is_exercise)]
    pub fn is_exercise(&self) -> (r: bool)
        ensures
            r == self.spec_is_exercise(),
    {
        matches!(self, TestStage::Exercise { .. })
    }

    pub fn counts(&self) -> (r: StageCounts)
        ensures
            r == self.spec_counts(),
    {
        match self {
            TestStage::AmbientSample { counts } => *counts,
            TestStage::Exercise { counts, .. } => *counts,
        }
    }
}

/// A named, ordered sequence of test stages.
#[derive(Clone, Debug, PartialEq)]
pub struct TestConfig {
    pub name: String,
    pub short_name: String,
    pub stages: Vec<TestStage>,
}

#[derive(Debug, PartialEq, Eq)]
pub enum ValidationError {
    InvalidConfig,
}

#[derive(Debug, PartialEq, Eq)]
pub enum ParseError<'a> {
    IoError(String),
    InvalidExerciseStage(&'a str),
    InvalidAmbientStage(&'a str),
    InvalidTestHeader(&'a str),
    Other(String),
}

pub const PARSE_ERROR_MESSAGE_BAD_LEADING_QUOTATION: &'static str =
    "Quotation marks must occur immediately after token separator ('foo,\"bar\"' is OK, 'foo, \"bar\"' and 'foo,b\"bar\" are not).";

pub const PARSE_ERROR_MESSAGE_BAD_TRAILING_QUOTATION: &'static str =
    "Separator must occur immediately after close of quotation marks ('\"foo\",...' is OK, '\"foo\" ,...' and '\"foo\"bar,' are not)";

pub const PARSE_ERROR_MESSAGE_UNCLOSED_QUOTATION: &'static str = "All quotations must be closed";

pub const PARSE_ERROR_MESSAGE_UNQUOTED_HASH: &'static str =
    "Raw hash symbols (#) are not allowed inline, enclose the token (cell) in quotes if necessary, e.g. \"#ok\" or \"also #ok\"";

/// Result of tokenising one line: its fields, or why it is malformed.
pub enum TokOutcome {
    Tokens(Seq<Seq<char>>),
    BadLeadingQuotation,
    BadTrailingQuotation,
    UnclosedQuotation,
    UnquotedHash,
}

/// The tokeniser's state machine: fields are comma-separated; a field may
/// be enclosed in double quotes if the quote is its first character; inside
/// quotes, a doubled quote is a literal quote; a bare `#` outside quotes is
/// an error. `cur` and `done` accumulate the current field and the fields
/// already finished.
pub open spec fn tok_spec(
    s: Seq<char>,
    i: int,
    in_quote: bool,
    cur: Seq<char>,
    done: Seq<Seq<char>>,
) -> TokOutcome
    decreases s.len() - i,
    when 0 <= i <= s.len()
{
    if i >= s.len() {
        if in_quote {
            TokOutcome::UnclosedQuotation
        } else {
            TokOutcome::Tokens(done.push(cur))
        }
    } else {
        let c = s[i];
        if c == ',' {
            if in_quote {
                tok_spec(s, i + 1, true, cur.push(','), done)
            } else {
                tok_spec(s, i + 1, false, Seq::empty(), done.push(cur))
            }
        } else if c == '"' {
            if !in_quote {
                if cur.len() > 0 {
                    TokOutcome::BadLeadingQuotation
                } else {
                    tok_spec(s, i + 1, true, cur, done)
                }
            } else {
                if i + 1 >= s.len() {
                    TokOutcome::Tokens(done.push(cur))
                } else if s[i + 1] == '"' {
                    tok_spec(s, i + 2, true, cur.push('"'), done)
                } else if s[i + 1] == ',' {
                    tok_spec(s, i + 1, false, cur, done)
                } else {
                    TokOutcome::BadTrailingQuotation
                }
            }
        } else if c == '#' {
            if in_quote {
                tok_spec(s, i + 1, true, cur.push('#'), done)
            } else {
                TokOutcome::UnquotedHash
            }
        } else {
            tok_spec(s, i + 1, in_quote, cur.push(c), done)
        }
    }
}

/// What tokenising a whole line yields; a line beginning with `#` is a
/// whole-line comment returned as a single token.
pub open spec fn tokenise_spec(s: Seq<char>) -> TokOutcome {
    if s.len() > 0 && s[0] == '#' {
        TokOutcome::Tokens(seq![s])
    } else {
        tok_spec(s, 0, false, Seq::empty(), Seq::empty())
    }
}

/// Splits one line into its fields, or reports how it is malformed.
pub fn tokenise_line<'a, 'b>(line: &'a str) -> (r: Result<Vec<String>, ParseError<'b>>)
    ensures
        match tokenise_spec(line@) {
            TokOutcome::Tokens(ts) => r matches Ok(v) && strings_match(v@, ts),
            TokOutcome::BadLeadingQuotation => r matches Err(ParseError::Other(m)) && m@
                == PARSE_ERROR_MESSAGE_BAD_LEADING_QUOTATION@,
            TokOutcome::BadTrailingQuotation => r matches Err(ParseError::Other(m)) && m@
                == PARSE_ERROR_MESSAGE_BAD_TRAILING_QUOTATION@,
            TokOutcome::UnclosedQuotation => r matches Err(ParseError::Other(m)) && m@
                == PARSE_ERROR_MESSAGE_UNCLOSED_QUOTATION@,
            TokOutcome::UnquotedHash => r matches Err(ParseError::Other(m)) && m@
                == PARSE_ERROR_MESSAGE_UNQUOTED_HASH@,
        },
{
    let n = line.unicode_len();
    if n > 0 && line.get_char(0) == '#' {
        let mut v: Vec<String> = Vec::new();
        v.push(line.to_owned());
        proof {
            assert(strings_match(v@, seq![line@]));
        }
        return Ok(v);
    }
    let mut i: usize = 0;
    let mut in_quote = false;
    let mut cur = String::new();
    let mut out: Vec<String> = Vec::new();
    proof {
        assert(string_views(out@) =~= Seq::<Seq<char>>::empty());
    }
    while i < n
        invariant
            i <= n == line@.len(),
            n > 0 ==> line@[0] != '#',
            tok_spec(line@, 0, false, Seq::empty(), Seq::empty()) == tok_spec(
                line@,
                i as int,
                in_quote,
                cur@,
                string_views(out@),
            ),
        decreases n - i,
    {
        let c = line.get_char(i);
        if c == ',' {
            if in_quote {
                push_char(&mut cur, ',');
            } else {
                let ghost old_out = out@;
                let ghost old_cur = cur@;
                out.push(cur);
                cur = String::new();
                proof {
                    assert(string_views(out@) =~= string_views(old_out).push(old_cur));
                }
            }
            i = i + 1;
        } else if c == '"' {
            if !in_quote {
                if cur.unicode_len() > 0 {
                    return Err(
                        ParseError::Other(PARSE_ERROR_MESSAGE_BAD_LEADING_QUOTATION.to_owned()),
                    );
                }
                in_quote = true;
                i = i + 1;
            } else {
                if n - i <= 1 {
                    out.push(cur);
                    return Ok(out);
                }
                let c2 = line.get_char(i + 1);
                if c2 == '"' {
                    push_char(&mut cur, '"');
                    i = i + 2;
                } else if c2 == ',' {
                    in_quote = false;
                    i = i + 1;
                } else {
                    return Err(
                        ParseError::Other(PARSE_ERROR_MESSAGE_BAD_TRAILING_QUOTATION.to_owned()),
                    );
                }
            }
        } else if c == '#' {
            if in_quote {
                push_char(&mut cur, '#');
                i = i + 1;
            } else {
                return Err(ParseError::Other(PARSE_ERROR_MESSAGE_UNQUOTED_HASH.to_owned()));
            }
        } else {
            push_char(&mut cur, c);
            i = i + 1;
        }
    }
    if in_quote {
        return Err(ParseError::Other(PARSE_ERROR_MESSAGE_UNCLOSED_QUOTATION.to_owned()));
    }
    out.push(cur);
    Ok(out)
}

/// Spec-level image of a parsed stage.
pub enum StageModel {
    Ambient { purge: int, sample: int },
    Exercise { name: Seq<char>, purge: int, sample: int },
}

/// Spec-level image of a parsed configuration.
pub struct ConfigModel {
    pub name: Seq<char>,
    pub short_name: Seq<char>,
    pub stages: Seq<StageModel>,
}

/// Why a configuration text is rejected.
pub enum CsvError {
    MissingHeader,
    HeaderTooFewFields,
    AmbientTooFewFields,
    AmbientBadPurge,
    AmbientBadSample,
    ExerciseTooFewFields,
    ExerciseBadPurge,
    ExerciseBadSample,
    UnsupportedCommand(Seq<char>),
    BadLeadingQuotation,
    BadTrailingQuotation,
    UnclosedQuotation,
    UnquotedHash,
}

pub open spec fn stage_matches(st: TestStage, m: StageModel) -> bool {
    match (st, m) {
        (TestStage::AmbientSample { counts }, StageModel::Ambient { purge, sample }) => counts
            .purge_count == purge && counts.sample_count == sample,
        (
            TestStage::Exercise { name, counts },
            StageModel::Exercise { name: n, purge, sample },
        ) => name@ == n && counts.purge_count == purge && counts.sample_count == sample,
        _ => false,
    }
}

pub open spec fn stages_match(v: Seq<TestStage>, ms: Seq<StageModel>) -> bool {
    v.len() == ms.len() && forall|i: int|
        0 <= i < v.len() ==> stage_matches(#[trigger] v[i], ms[i])
}

pub open spec fn config_matches(c: TestConfig, m: ConfigModel) -> bool {
    c.name@ == m.name && c.short_name@ == m.short_name && stages_match(c.stages@, m.stages)
}

/// What the configuration parser accepts, one line at a time: blank lines
/// and whole-line comments are skipped; a TEST line sets the header (the
/// last one wins); AMBIENT and EXERCISE lines append stages; any other
/// leading field is rejected. `header` holds (id, display name); extra
/// fields on known rows are ignored for forward compatibility.
pub open spec fn csv_spec(
    t: Seq<char>,
    header: Option<(Seq<char>, Seq<char>)>,
    stages: Seq<StageModel>,
) -> Result<ConfigModel, CsvError>
    decreases t.len(),
{
    if t.len() == 0 {
        match header {
            Some(h) => Ok(ConfigModel { name: h.1, short_name: h.0, stages }),
            None => Err(CsvError::MissingHeader),
        }
    } else {
        let e = find_char(t, '\n') as int;
        let rest = if e + 1 <= t.len() {
            t.skip(e + 1)
        } else {
            Seq::empty()
        };
        let line = trim_spec(t.subrange(0, e));
        if line.len() == 0 || line[0] == '#' {
            csv_spec(rest, header, stages)
        } else {
            match tokenise_spec(line) {
                TokOutcome::Tokens(cols) => {
                    if cols[0] == "TEST"@ {
                        if cols.len() < 3 {
                            Err(CsvError::HeaderTooFewFields)
                        } else {
                            csv_spec(rest, Some((cols[1], cols[2])), stages)
                        }
                    } else if cols[0] == "AMBIENT"@ {
                        if cols.len() < 3 {
                            Err(CsvError::AmbientTooFewFields)
                        } else if !(uns_ok(cols[1]) && uns_val(cols[1]) <= 255) {
                            Err(CsvError::AmbientBadPurge)
                        } else if !(uns_ok(cols[2]) && uns_val(cols[2]) <= 65535) {
                            Err(CsvError::AmbientBadSample)
                        } else {
                            csv_spec(
                                rest,
                                header,
                                stages.push(
                                    StageModel::Ambient {
                                        purge: uns_val(cols[1]),
                                        sample: uns_val(cols[2]),
                                    },
                                ),
                            )
                        }
                    } else if cols[0] == "EXERCISE"@ {
                        if cols.len() < 4 {
                            Err(CsvError::ExerciseTooFewFields)
                        } else if !(uns_ok(cols[1]) && uns_val(cols[1]) <= 255) {
                            Err(CsvError::ExerciseBadPurge)
                        } else if !(uns_ok(cols[2]) && uns_val(cols[2]) <= 65535) {
                            Err(CsvError::ExerciseBadSample)
                        } else {
                            csv_spec(
                                rest,
                                header,
                                stages.push(
                                    StageModel::Exercise {
                                        name: if cols[3].len() > 0 {
                                            cols[3]
                                        } else {
                                            "<no name>"@
                                        },
                                        purge: uns_val(cols[1]),
                                        sample: uns_val(cols[2]),
                                    },
                                ),
                            )
                        }
                    } else {
                        Err(CsvError::UnsupportedCommand(cols[0]))
                    }
                },
                TokOutcome::BadLeadingQuotation => Err(CsvError::BadLeadingQuotation),
                TokOutcome::BadTrailingQuotation => Err(CsvError::BadTrailingQuotation),
                TokOutcome::UnclosedQuotation => Err(CsvError::UnclosedQuotation),
                TokOutcome::UnquotedHash => Err(CsvError::UnquotedHash),
            }
        }
    }
}

/// The error value reported for each way a configuration text is rejected.
pub open spec fn csv_err_matches<'a>(e: ParseError<'a>, k: CsvError) -> bool {
    match k {
        CsvError::MissingHeader => e matches ParseError::InvalidTestHeader(m) && m@
            == "test header (TEST line) not found"@,
        CsvError::HeaderTooFewFields => e matches ParseError::InvalidTestHeader(m) && m@
            == "test header (TEST line) must contain >= 3 fields"@,
        CsvError::AmbientTooFewFields => e matches ParseError::InvalidAmbientStage(m) && m@
            == "ambient stage must contain >= 3 fields"@,
        CsvError::AmbientBadPurge => e matches ParseError::InvalidAmbientStage(m) && m@
            == "ambient stage purge count must be an integer between 0 and 255"@,
        CsvError::AmbientBadSample => e matches ParseError::InvalidAmbientStage(m) && m@
            == "ambient stage purge count must be an integer between 0 and {u16::MAX}"@,
        CsvError::ExerciseTooFewFields => e matches ParseError::InvalidExerciseStage(m) && m@
            == "exercise stage must contain >= 4 fields"@,
        CsvError::ExerciseBadPurge => e matches ParseError::InvalidExerciseStage(m) && m@
            == "exercise stage purge count must be an integer between 0 and 255"@,
        CsvError::ExerciseBadSample => e matches ParseError::InvalidExerciseStage(m) && m@
            == "exercise stage purge count must be an integer between 0 and {u16::MAX}"@,
        CsvError::UnsupportedCommand(cmd) => e matches ParseError::Other(m) && m@
            == "unsupported stage/command: "@ + cmd,
        CsvError::BadLeadingQuotation => e matches ParseError::Other(m) && m@
            == PARSE_ERROR_MESSAGE_BAD_LEADING_QUOTATION@,
        CsvError::BadTrailingQuotation => e matches ParseError::Other(m) && m@
            == PARSE_ERROR_MESSAGE_BAD_TRAILING_QUOTATION@,
        CsvError::UnclosedQuotation => e matches ParseError::Other(m) && m@
            == PARSE_ERROR_MESSAGE_UNCLOSED_QUOTATION@,
        CsvError::UnquotedHash => e matches ParseError::Other(m) && m@
            == PARSE_ERROR_MESSAGE_UNQUOTED_HASH@,
    }
}

/// Tokenising never yields an empty field list.
proof fn lemma_tok_tokens_len(s: Seq<char>, i: int, q: bool, cur: Seq<char>, done: Seq<Seq<char>>)
    requires
        0 <= i <= s.len(),
    ensures
        match tok_spec(s, i, q, cur, done) {
            TokOutcome::Tokens(ts) => ts.len() > done.len(),
            _ => true,
        },
    decreases s.len() - i,
{
    if i < s.len() {
        let c = s[i];
        if c == ',' {
            if q {
                lemma_tok_tokens_len(s, i + 1, true, cur.push(','), done);
            } else {
                lemma_tok_tokens_len(s, i + 1, false, Seq::empty(), done.push(cur));
            }
        } else if c == '"' {
            if !q {
                if cur.len() == 0 {
                    lemma_tok_tokens_len(s, i + 1, true, cur, done);
                }
            } else {
                if i + 1 < s.len() {
                    if s[i + 1] == '"' {
                        lemma_tok_tokens_len(s, i + 2, true, cur.push('"'), done);
                    } else if s[i + 1] == ',' {
                        lemma_tok_tokens_len(s, i + 1, false, cur, done);
                    }
                }
            }
        } else if c == '#' {
            if q {
                lemma_tok_tokens_len(s, i + 1, true, cur.push('#'), done);
            }
        } else {
            lemma_tok_tokens_len(s, i + 1, q, cur.push(c), done);
        }
    }
}

/// A text field the line-oriented form can carry as it stands: free of the
/// separator, the quote, the comment mark and line breaks.
pub open spec fn plain_field(s: Seq<char>) -> bool {
    forall|i: int|
        0 <= i < s.len() ==> ((#[trigger] s[i]) != ',' && s[i] != '"' && s[i] != '#' && s[i]
            != '\n')
}

/// A field that line-end trimming leaves alone when it closes a line.
pub open spec fn trail_clean(s: Seq<char>) -> bool {
    s.len() > 0 ==> !is_space(s.last())
}

/// The name fields of a configuration, as its serialised form carries them.
pub open spec fn names_serialisable(cfg: TestConfig) -> bool {
    plain_field(cfg.short_name@) && plain_field(cfg.name@) && trail_clean(cfg.name@) && (forall|
        i: int,
    |
        0 <= i < cfg.stages@.len() ==> match #[trigger] cfg.stages@[i] {
            TestStage::Exercise { name, .. } => plain_field(name@) && trail_clean(name@),
            TestStage::AmbientSample { .. } => true,
        })
}

/// One stage rendered as a configuration line, counts zero-padded.
pub open spec fn render_stage(st: TestStage) -> Seq<char> {
    match st {
        TestStage::AmbientSample { counts } => seq!['A', 'M', 'B', 'I', 'E', 'N', 'T', ',']
            + dec_seq(counts.purge_count as int, 3) + seq![','] + dec_seq(
            counts.sample_count as int,
            5,
        ) + seq!['\n'],
        TestStage::Exercise { name, counts } => seq!['E', 'X', 'E', 'R', 'C', 'I', 'S', 'E', ',']
            + dec_seq(counts.purge_count as int, 3) + seq![','] + dec_seq(
            counts.sample_count as int,
            5,
        ) + seq![','] + name@ + seq!['\n'],
    }
}

pub open spec fn render_stages(ss: Seq<TestStage>) -> Seq<char>
    decreases ss.len(),
{
    if ss.len() == 0 {
        Seq::empty()
    } else {
        render_stage(ss[0]) + render_stages(ss.drop_first())
    }
}

/// A configuration rendered in its line-oriented text form.
pub open spec fn serialise_spec(cfg: TestConfig) -> Seq<char> {
    seq!['T', 'E', 'S', 'T', ','] + cfg.short_name@ + seq![','] + cfg.name@ + seq!['\n']
        + render_stages(cfg.stages@)
}

/// The tokeniser copies a run of plain characters into the current field.
proof fn lemma_tok_plain_run(s: Seq<char>, i: int, j: int, cur: Seq<char>, done: Seq<Seq<char>>)
    requires
        0 <= i <= j <= s.len(),
        forall|l: int| i <= l < j ==> ((#[trigger] s[l]) != ',' && s[l] != '"' && s[l] != '#'),
    ensures
        tok_spec(s, i, false, cur, done) == tok_spec(s, j, false, cur + s.subrange(i, j), done),
    decreases j - i,
{
    if i < j {
        lemma_tok_plain_run(s, i + 1, j, cur.push(s[i]), done);
        assert(cur.push(s[i]) + s.subrange(i + 1, j) =~= cur + s.subrange(i, j));
    } else {
        assert(cur + s.subrange(i, i) =~= cur);
    }
}

proof fn lemma_render_stages_snoc(ss: Seq<TestStage>)
    requires
        ss.len() > 0,
    ensures
        render_stages(ss) == render_stages(ss.drop_last()) + render_stage(ss.last()),
    decreases ss.len(),
{
    if ss.len() == 1 {
        assert(ss.drop_first() =~= Seq::<TestStage>::empty());
        assert(ss.drop_last() =~= Seq::<TestStage>::empty());
        assert(render_stage(ss[0]) + Seq::<char>::empty() =~= render_stage(ss[0]));
        assert(Seq::<char>::empty() + render_stage(ss.last()) =~= render_stage(ss.last()));
    } else {
        let df = ss.drop_first();
        lemma_render_stages_snoc(df);
        assert(df.last() == ss.last());
        assert(df.drop_last() =~= ss.drop_last().drop_first());
        assert(ss.drop_last().len() > 0);
        assert(ss.drop_last()[0] == ss[0]);
        assert(render_stages(ss.drop_last()) == render_stage(ss[0]) + render_stages(
            ss.drop_last().drop_first(),
        ));
        assert(render_stage(ss[0]) + (render_stages(df.drop_last()) + render_stage(df.last()))
            =~= (render_stage(ss[0]) + render_stages(df.drop_last())) + render_stage(df.last()));
    }
}

impl TestConfig {
    /// Writes the configuration out in its line-oriented text form, the
    /// inverse direction of `parse_from_csv`: a header line followed by one
    /// line per stage, with zero-padded counts and unquoted names.
    #[verifier::rlimit(100)]
    #[verifier::spinoff_prover]
    pub fn serialise(&self) -> (r: String)
        ensures
            r@ == serialise_spec(*self),
    {
        let mut out = String::new();
        push_char(&mut out, 'T');
        push_char(&mut out, 'E');
        push_char(&mut out, 'S');
        push_char(&mut out, 'T');
        push_char(&mut out, ',');
        out.append(self.short_name.as_str());
        push_char(&mut out, ',');
        out.append(self.name.as_str());
        push_char(&mut out, '\n');
        let ghost header = seq!['T', 'E', 'S', 'T', ','] + self.short_name@ + seq![',']
            + self.name@ + seq!['\n'];
        proof {
            assert(out@ =~= header);
            assert(self.stages@.subrange(0, 0) =~= Seq::<TestStage>::empty());
            assert(header + Seq::<char>::empty() =~= header);
        }
        let n = self.stages.len();
        let mut i: usize = 0;
        while i < n
            invariant
                i <= n == self.stages@.len(),
                header == seq!['T', 'E', 'S', 'T', ','] + self.short_name@ + seq![',']
                    + self.name@ + seq!['\n'],
                out@ == header + render_stages(self.stages@.subrange(0, i as int)),
            decreases n - i,
        {
            proof {
                lemma_render_stages_snoc(self.stages@.subrange(0, i + 1));
                assert(self.stages@.subrange(0, i + 1).drop_last() =~= self.stages@.subrange(
                    0,
                    i as int,
                ));
                assert(self.stages@.subrange(0, i + 1).last() == self.stages@[i as int]);
            }
            let ghost out_before = out@;
            match &self.stages[i] {
                TestStage::AmbientSample { counts } => {
                    push_char(&mut out, 'A');
                    push_char(&mut out, 'M');
                    push_char(&mut out, 'B');
                    push_char(&mut out, 'I');
                    push_char(&mut out, 'E');
                    push_char(&mut out, 'N');
                    push_char(&mut out, 'T');
                    push_char(&mut out, ',');
                    let purge = dec_chars(counts.purge_count as u64, 3);
                    crate::text::push_chars(&mut out, &purge);
                    push_char(&mut out, ',');
                    let sample = dec_chars(counts.sample_count as u64, 5);
                    crate::text::push_chars(&mut out, &sample);
                    push_char(&mut out, '\n');
                    proof {
                        assert(out@ =~= out_before + render_stage(self.stages@[i as int]));
                    }
                },
                TestStage::Exercise { name, counts } => {
                    push_char(&mut out, 'E');
                    push_char(&mut out, 'X');
                    push_char(&mut out, 'E');
                    push_char(&mut out, 'R');
                    push_char(&mut out, 'C');
                    push_char(&mut out, 'I');
                    push_char(&mut out, 'S');
                    push_char(&mut out, 'E');
                    push_char(&mut out, ',');
                    let purge = dec_chars(counts.purge_count as u64, 3);
                    crate::text::push_chars(&mut out, &purge);
                    push_char(&mut out, ',');
                    let sample = dec_chars(counts.sample_count as u64, 5);
                    crate::text::push_chars(&mut out, &sample);
                    push_char(&mut out, ',');
                    out.append(name.as_str());
                    push_char(&mut out, '\n');
                    proof {
                        assert(out@ =~= out_before + render_stage(self.stages@[i as int]));
                    }
                },
            }
            proof {
                assert(out@ =~= header + render_stages(self.stages@.subrange(0, i + 1)));
            }
            i = i + 1;
        }
        proof {
            assert(self.stages@.subrange(0, n as int) =~= self.stages@);
        }
        out
    }
}

proof fn lemma_config_valid_no_consec(c: TestConfig, i: int)
    requires
        config_valid(c),
        1 <= i < c.stages@.len(),
    ensures
        !(ambient_at(c.stages@, i) && ambient_at(c.stages@, i - 1)),
{
}

proof fn lemma_config_valid_sample_count(c: TestConfig, i: int)
    requires
        config_valid(c),
        0 <= i < c.stages@.len(),
    ensures
        sample_count_at(c.stages@, i) >= 1,
{
}

/// The spec-level model a rendered stage line parses to.
pub open spec fn stage_model_of(st: TestStage) -> StageModel {
    match st {
        TestStage::AmbientSample { counts } => StageModel::Ambient {
            purge: counts.purge_count as int,
            sample: counts.sample_count as int,
        },
        TestStage::Exercise { name, counts } => StageModel::Exercise {
            name: if name@.len() > 0 {
                name@
            } else {
                "<no name>"@
            },
            purge: counts.purge_count as int,
            sample: counts.sample_count as int,
        },
    }
}

/// A rendered ambient line is consumed as one appended ambient stage.
#[verifier::rlimit(100)]
#[verifier::spinoff_prover]
proof fn lemma_parse_ambient_line(
    counts: StageCounts,
    rest: Seq<char>,
    id: Seq<char>,
    disp: Seq<char>,
    acc: Seq<StageModel>,
)
    ensures
        csv_spec(render_stage(TestStage::AmbientSample { counts }) + rest, Some((id, disp)), acc)
            == csv_spec(
            rest,
            Some((id, disp)),
            acc.push(stage_model_of(TestStage::AmbientSample { counts })),
        ),
{
    reveal_strlit("TEST");
    reveal_strlit("AMBIENT");
    lemma_pow10_values();
    let line_full = render_stage(TestStage::AmbientSample { counts });
    let t = line_full + rest;
    let d3 = dec_seq(counts.purge_count as int, 3);
    let d5 = dec_seq(counts.sample_count as int, 5);
    lemma_dec_seq_len(counts.purge_count as int, 3);
    lemma_dec_seq_len(counts.sample_count as int, 5);
    lemma_dec_seq_digits(counts.purge_count as int, 3);
    lemma_dec_seq_digits(counts.sample_count as int, 5);
    lemma_digits_val_dec_seq(counts.purge_count as int, 3);
    lemma_digits_val_dec_seq(counts.sample_count as int, 5);
    vstd::arithmetic::div_mod::lemma_small_mod(counts.purge_count as nat, 1000nat);
    vstd::arithmetic::div_mod::lemma_small_mod(counts.sample_count as nat, 100000nat);
    let body = seq!['A', 'M', 'B', 'I', 'E', 'N', 'T', ','] + d3 + seq![','] + d5;
    assert(t.subrange(0, 17) =~= body);
    assert forall|l: int| 0 <= l < 17 implies #[trigger] t[l] != '\n' by {
        assert(t[l] == body[l]);
        if 8 <= l < 11 {
            assert(body[l] == d3[l - 8]);
            assert(is_digit(d3[l - 8]));
        }
        if 12 <= l < 17 {
            assert(body[l] == d5[l - 12]);
            assert(is_digit(d5[l - 12]));
        }
    }
    assert(t[17] == '\n');
    lemma_find_char_at(t, '\n', 17);
    assert(t.skip(18) =~= rest);
    assert(body[0] == 'A');
    assert(body.last() == d5[4]);
    assert(is_digit(d5[4]));
    lemma_trim_front_clean(body);
    lemma_trim_back_clean(body);
    assert(trim_spec(body) == body);
    let f0 = body.subrange(0, 7);
    lemma_tok_plain_run(body, 0, 7, Seq::empty(), Seq::empty());
    assert(body[7] == ',');
    lemma_tok_plain_run(body, 8, 11, Seq::empty(), seq![Seq::empty() + f0]);
    assert(body[11] == ',');
    lemma_tok_plain_run(
        body,
        12,
        17,
        Seq::empty(),
        seq![Seq::empty() + f0, Seq::empty() + body.subrange(8, 11)],
    );
    assert(body.subrange(8, 11) =~= d3);
    assert(body.subrange(12, 17) =~= d5);
    let cols = seq![Seq::empty() + f0, Seq::empty() + d3, Seq::empty() + d5];
    assert(tokenise_spec(body) == TokOutcome::Tokens(cols)) by {
        assert(Seq::<Seq<char>>::empty().push(Seq::empty() + f0) =~= seq![Seq::empty() + f0]);
        assert(seq![Seq::empty() + f0].push(Seq::empty() + body.subrange(8, 11)) =~= seq![
            Seq::empty() + f0,
            Seq::empty() + body.subrange(8, 11),
        ]);
        assert(seq![Seq::empty() + f0, Seq::empty() + body.subrange(8, 11)].push(
            Seq::empty() + body.subrange(12, 17)) =~= cols);
    }
    assert(cols[0] =~= "AMBIENT"@);
    assert(cols[0] != "TEST"@);
    assert(Seq::empty() + d3 =~= d3);
    assert(Seq::empty() + d5 =~= d5);
    assert(uns_ok(d3) && uns_val(d3) == counts.purge_count as int);
    assert(uns_ok(d5) && uns_val(d5) == counts.sample_count as int);
}

/// A rendered exercise line is consumed as one appended exercise stage.
#[verifier::rlimit(100)]
#[verifier::spinoff_prover]
proof fn lemma_parse_exercise_line(
    name: String,
    counts: StageCounts,
    rest: Seq<char>,
    id: Seq<char>,
    disp: Seq<char>,
    acc: Seq<StageModel>,
)
    requires
        plain_field(name@),
        trail_clean(name@),
    ensures
        csv_spec(
            render_stage(TestStage::Exercise { name, counts }) + rest,
            Some((id, disp)),
            acc,
        ) == csv_spec(
            rest,
            Some((id, disp)),
            acc.push(stage_model_of(TestStage::Exercise { name, counts })),
        ),
{
    reveal_strlit("TEST");
    reveal_strlit("AMBIENT");
    reveal_strlit("EXERCISE");
    lemma_pow10_values();
    let line_full = render_stage(TestStage::Exercise { name, counts });
    let t = line_full + rest;
    let d3 = dec_seq(counts.purge_count as int, 3);
    let d5 = dec_seq(counts.sample_count as int, 5);
    let nm = name@;
    lemma_dec_seq_len(counts.purge_count as int, 3);
    lemma_dec_seq_len(counts.sample_count as int, 5);
    lemma_dec_seq_digits(counts.purge_count as int, 3);
    lemma_dec_seq_digits(counts.sample_count as int, 5);
    lemma_digits_val_dec_seq(counts.purge_count as int, 3);
    lemma_digits_val_dec_seq(counts.sample_count as int, 5);
    vstd::arithmetic::div_mod::lemma_small_mod(counts.purge_count as nat, 1000nat);
    vstd::arithmetic::div_mod::lemma_small_mod(counts.sample_count as nat, 100000nat);
    let body = seq!['E', 'X', 'E', 'R', 'C', 'I', 'S', 'E', ','] + d3 + seq![','] + d5 + seq![',']
        + nm;
    let bn: int = (19 + nm.len()) as int;
    assert(t.subrange(0, bn) =~= body);
    assert forall|l: int| 0 <= l < bn implies #[trigger] t[l] != '\n' by {
        assert(t[l] == body[l]);
        if 9 <= l < 12 {
            assert(body[l] == d3[l - 9]);
            assert(is_digit(d3[l - 9]));
        }
        if 13 <= l < 18 {
            assert(body[l] == d5[l - 13]);
            assert(is_digit(d5[l - 13]));
        }
        if 19 <= l < bn {
            assert(body[l] == nm[l - 19]);
        }
    }
    assert(t[bn] == '\n');
    lemma_find_char_at(t, '\n', bn);
    assert(t.skip(bn + 1) =~= rest);
    assert(body[0] == 'E');
    if nm.len() > 0 {
        assert(body.last() == nm.last());
    } else {
        assert(body.last() == ',');
    }
    lemma_trim_front_clean(body);
    lemma_trim_back_clean(body);
    assert(trim_spec(body) == body);
    let f0 = body.subrange(0, 8);
    lemma_tok_plain_run(body, 0, 8, Seq::empty(), Seq::empty());
    assert(body[8] == ',');
    lemma_tok_plain_run(body, 9, 12, Seq::empty(), seq![Seq::empty() + f0]);
    assert(body[12] == ',');
    lemma_tok_plain_run(
        body,
        13,
        18,
        Seq::empty(),
        seq![Seq::empty() + f0, Seq::empty() + body.subrange(9, 12)],
    );
    assert(body[18] == ',');
    lemma_tok_plain_run(
        body,
        19,
        bn,
        Seq::empty(),
        seq![
            Seq::empty() + f0,
            Seq::empty() + body.subrange(9, 12),
            Seq::empty() + body.subrange(13, 18),
        ],
    );
    assert(body.subrange(9, 12) =~= d3);
    assert(body.subrange(13, 18) =~= d5);
    assert(body.subrange(19, bn) =~= nm);
    let cols = seq![Seq::empty() + f0, Seq::empty() + d3, Seq::empty() + d5, Seq::empty() + nm];
    assert(tokenise_spec(body) == TokOutcome::Tokens(cols)) by {
        assert(Seq::<Seq<char>>::empty().push(Seq::empty() + f0) =~= seq![Seq::empty() + f0]);
        assert(seq![Seq::empty() + f0].push(Seq::empty() + body.subrange(9, 12)) =~= seq![
            Seq::empty() + f0,
            Seq::empty() + body.subrange(9, 12),
        ]);
        assert(seq![Seq::empty() + f0, Seq::empty() + body.subrange(9, 12)].push(
            Seq::empty() + body.subrange(13, 18)) =~= seq![
            Seq::empty() + f0,
            Seq::empty() + body.subrange(9, 12),
            Seq::empty() + body.subrange(13, 18),
        ]);
        assert(seq![
            Seq::empty() + f0,
            Seq::empty() + body.subrange(9, 12),
            Seq::empty() + body.subrange(13, 18),
        ].push(Seq::empty() + body.subrange(19, bn)) =~= cols);
    }
    assert(cols[0] =~= "EXERCISE"@);
    assert(cols[0] != "TEST"@);
    assert(cols[0] != "AMBIENT"@);
    assert(Seq::empty() + d3 =~= d3);
    assert(Seq::empty() + d5 =~= d5);
    assert(Seq::empty() + nm =~= nm);
    assert(uns_ok(d3) && uns_val(d3) == counts.purge_count as int);
    assert(uns_ok(d5) && uns_val(d5) == counts.sample_count as int);
}

/// Rendered stage lines parse back, stage for stage, to models of the same
/// kinds and counts.
proof fn lemma_parse_rendered_stages(
    ss: Seq<TestStage>,
    id: Seq<char>,
    disp: Seq<char>,
    acc: Seq<StageModel>,
)
    requires
        forall|i: int|
            0 <= i < ss.len() ==> (match #[trigger] ss[i] {
                TestStage::Exercise { name, .. } => plain_field(name@) && trail_clean(name@),
                TestStage::AmbientSample { .. } => true,
            }),
    ensures
        match csv_spec(render_stages(ss), Some((id, disp)), acc) {
            Ok(m) => m.short_name == id && m.name == disp && m.stages.len() == acc.len()
                + ss.len() && (forall|i: int|
                0 <= i < acc.len() ==> #[trigger] m.stages[i] == acc[i]) && (forall|i: int|
                0 <= i < ss.len() ==> #[trigger] m.stages[acc.len() + i] == stage_model_of(
                    ss[i],
                )),
            Err(_) => false,
        },
    decreases ss.len(),
{
    if ss.len() == 0 {
        assert(render_stages(ss) =~= Seq::<char>::empty());
    } else {
        let st = ss[0];
        let rest = render_stages(ss.drop_first());
        match st {
            TestStage::AmbientSample { counts } => {
                lemma_parse_ambient_line(counts, rest, id, disp, acc);
            },
            TestStage::Exercise { name, counts } => {
                lemma_parse_exercise_line(name, counts, rest, id, disp, acc);
            },
        }
        let pushed = acc.push(stage_model_of(st));
        assert(csv_spec(render_stages(ss), Some((id, disp)), acc) == csv_spec(
            rest,
            Some((id, disp)),
            pushed,
        ));
        lemma_parse_rendered_stages(ss.drop_first(), id, disp, pushed);
        match csv_spec(rest, Some((id, disp)), pushed) {
            Ok(m) => {
                assert forall|i: int| 0 <= i < ss.len() implies #[trigger] m.stages[acc.len() + i]
                    == stage_model_of(ss[i]) by {
                    if i == 0 {
                        assert(m.stages[acc.len() as int] == pushed[acc.len() as int]);
                    } else {
                        assert(ss[i] == ss.drop_first()[i - 1]);
                        assert(m.stages[pushed.len() + (i - 1)] == m.stages[acc.len() + i]);
                    }
                }
            },
            Err(_) => {
                assert(false);
            },
        }
    }
}

/// Writing a configuration out and reading it back preserves it: the parse
/// succeeds, the parsed model carries the configuration's names and, stage
/// for stage, exactly its kinds, counts and exercise names (an empty
/// exercise name becoming the placeholder) - so a valid configuration
/// serialises to a text whose parse validates.
#[verifier::rlimit(100)]
#[verifier::spinoff_prover]
pub proof fn law_serialise_parse_validates(cfg: TestConfig)
    requires
        config_valid(cfg),
        names_serialisable(cfg),
    ensures
        match csv_spec(serialise_spec(cfg), None, Seq::empty()) {
            Ok(m) => m.short_name == cfg.short_name@ && m.name == cfg.name@ && m.stages.len()
                == cfg.stages@.len() && (forall|i: int|
                0 <= i < cfg.stages@.len() ==> #[trigger] m.stages[i] == stage_model_of(
                    cfg.stages@[i],
                )) && (forall|c: TestConfig| #[trigger] config_matches(c, m) ==> config_valid(c)),
            Err(_) => false,
        },
{
    reveal_strlit("TEST");
    let t = serialise_spec(cfg);
    let id = cfg.short_name@;
    let disp = cfg.name@;
    let rest = render_stages(cfg.stages@);
    let bn: int = (6 + id.len() + disp.len()) as int;
    let body = seq!['T', 'E', 'S', 'T', ','] + id + seq![','] + disp;
    assert(t.subrange(0, bn) =~= body);
    assert forall|l: int| 0 <= l < bn implies #[trigger] t[l] != '\n' by {
        assert(t[l] == body[l]);
        if 5 <= l < 5 + id.len() {
            assert(body[l] == id[l - 5]);
        }
        if 6 + id.len() <= l < bn {
            assert(body[l] == disp[l - 6 - id.len()]);
        }
    }
    assert(t[bn] == '\n');
    lemma_find_char_at(t, '\n', bn);
    assert(t.skip(bn + 1) =~= rest);
    assert(body[0] == 'T');
    if disp.len() > 0 {
        assert(body.last() == disp.last());
    } else {
        assert(body.last() == ',');
    }
    lemma_trim_front_clean(body);
    lemma_trim_back_clean(body);
    assert(trim_spec(body) == body);
    let f0 = body.subrange(0, 4);
    lemma_tok_plain_run(body, 0, 4, Seq::empty(), Seq::empty());
    assert(body[4] == ',');
    lemma_tok_plain_run(body, 5, 5 + id.len() as int, Seq::empty(), seq![Seq::empty() + f0]);
    assert(body[5 + id.len() as int] == ',');
    lemma_tok_plain_run(
        body,
        6 + id.len() as int,
        bn,
        Seq::empty(),
        seq![Seq::empty() + f0, Seq::empty() + body.subrange(5, 5 + id.len() as int)],
    );
    assert(body.subrange(5, 5 + id.len() as int) =~= id);
    assert(body.subrange(6 + id.len() as int, bn) =~= disp);
    let cols = seq![Seq::empty() + f0, Seq::empty() + id, Seq::empty() + disp];
    assert(tokenise_spec(body) == TokOutcome::Tokens(cols)) by {
        assert(Seq::<Seq<char>>::empty().push(Seq::empty() + f0) =~= seq![Seq::empty() + f0]);
        assert(seq![Seq::empty() + f0].push(
            Seq::empty() + body.subrange(5, 5 + id.len() as int)) =~= seq![
            Seq::empty() + f0,
            Seq::empty() + body.subrange(5, 5 + id.len() as int),
        ]);
        assert(seq![
            Seq::empty() + f0,
            Seq::empty() + body.subrange(5, 5 + id.len() as int),
        ].push(Seq::empty() + body.subrange(6 + id.len() as int, bn)) =~= cols);
    }
    assert(cols[0] =~= "TEST"@);
    assert(Seq::empty() + id =~= id);
    assert(Seq::empty() + disp =~= disp);
    assert(csv_spec(t, None, Seq::empty()) == csv_spec(rest, Some((id, disp)), Seq::empty()));
    lemma_parse_rendered_stages(cfg.stages@, id, disp, Seq::empty());
    match csv_spec(rest, Some((id, disp)), Seq::empty()) {
        Ok(m) => {
            assert forall|i: int| 0 <= i < cfg.stages@.len() implies #[trigger] m.stages[i]
                == stage_model_of(cfg.stages@[i]) by {
                assert(m.stages[0 + i] == stage_model_of(cfg.stages@[i]));
            }
            assert forall|c: TestConfig| #[trigger] config_matches(c, m) implies config_valid(
                c,
            ) by {
                let cs = c.stages@;
                let os = cfg.stages@;
                assert(cs.len() == os.len());
                assert forall|i: int| 0 <= i < cs.len() implies (#[trigger] ambient_at(cs, i)
                    == ambient_at(os, i) && sample_count_at(cs, i) == sample_count_at(os, i)) by {
                    assert(stage_matches(cs[i], m.stages[i]));
                    assert(m.stages[0 + i] == stage_model_of(os[i]));
                    assert(m.stages[0 + i] == m.stages[i]);
                }
                assert(ambient_at(cs, 0) == ambient_at(os, 0));
                assert(ambient_at(cs, cs.len() - 1) == ambient_at(os, os.len() - 1));
                assert forall|i: int| 1 <= i < cs.len() implies !(#[trigger] ambient_at(cs, i)
                    && ambient_at(cs, i - 1)) by {
                    assert(ambient_at(cs, i) == ambient_at(os, i));
                    assert(ambient_at(cs, i - 1) == ambient_at(os, i - 1));
                    lemma_config_valid_no_consec(cfg, i);
                }
                assert forall|i: int| 0 <= i < cs.len() implies #[trigger] sample_count_at(cs, i)
                    >= 1 by {
                    assert(ambient_at(cs, i) == ambient_at(os, i));
                    lemma_config_valid_sample_count(cfg, i);
                }
            }
        },
        Err(_) => {
            assert(false);
        },
    }
}

/// Whether the stage at `i` is an ambient measurement.
pub open spec fn ambient_at(s: Seq<TestStage>, i: int) -> bool {
    s[i].spec_is_ambient_sample()
}

/// The number of samples the stage at `i` keeps.
pub open spec fn sample_count_at(s: Seq<TestStage>, i: int) -> int {
    s[i].spec_counts().sample_count as int
}

/// The structural invariants of a usable configuration: at least three
/// stages, ambient measurements first and last, no two consecutive ambient
/// measurements, and at least one kept sample in every stage.
pub open spec fn config_valid(c: TestConfig) -> bool {
    let s = c.stages@;
    s.len() >= 3 && ambient_at(s, 0) && ambient_at(s, s.len() - 1) && (forall|i: int|
        1 <= i < s.len() ==> !(#[trigger] ambient_at(s, i) && ambient_at(s, i - 1))) && (forall|
        i: int,
    |
        0 <= i < s.len() ==> #[trigger] sample_count_at(s, i) >= 1)
}

/// The exercises among the stages, in order, by name.
pub open spec fn spec_exercise_names(s: Seq<TestStage>) -> Seq<Seq<char>>
    decreases s.len(),
{
    if s.len() == 0 {
        Seq::empty()
    } else {
        let rest = spec_exercise_names(s.drop_last());
        match s.last() {
            TestStage::Exercise { name, .. } => rest.push(name@),
            TestStage::AmbientSample { .. } => rest,
        }
    }
}

impl TestConfig {
    /// Accepts exactly the configurations that satisfy the structural
    /// invariants of `config_valid`.
    pub fn validate(&self) -> (r: Result<(), ValidationError>)
        ensures
            match r {
                Ok(()) => config_valid(*self),
                Err(e) => !config_valid(*self) && e == ValidationError::InvalidConfig,
            },
    {
        let ghost s = self.stages@;
        let n = self.stages.len();
        if n < 3 {
            return Err(ValidationError::InvalidConfig);
        }
        if !self.stages[0].is_ambient_sample() {
            proof {
                assert(!ambient_at(s, 0));
            }
            return Err(ValidationError::InvalidConfig);
        }
        if !self.stages[n - 1].is_ambient_sample() {
            proof {
                assert(!ambient_at(s, n - 1));
            }
            return Err(ValidationError::InvalidConfig);
        }
        let mut i: usize = 0;
        while i < n
            invariant
                s == self.stages@,
                i <= n == s.len(),
                forall|j: int| 1 <= j < i ==> !(#[trigger] ambient_at(s, j) && ambient_at(s, j - 1)),
                forall|j: int| 0 <= j < i ==> #[trigger] sample_count_at(s, j) >= 1,
            decreases n - i,
        {
            if i > 0 && self.stages[i].is_ambient_sample() && self.stages[i
                - 1].is_ambient_sample() {
                proof {
                    assert(ambient_at(s, i as int) && ambient_at(s, i - 1));
                }
                return Err(ValidationError::InvalidConfig);
            }
            if self.stages[i].counts().sample_count < 1 {
                proof {
                    assert(sample_count_at(s, i as int) < 1);
                }
                return Err(ValidationError::InvalidConfig);
            }
            proof {
                assert(ambient_at(s, i as int) == self.stages@[i as int].spec_is_ambient_sample());
                assert(sample_count_at(s, i as int) >= 1);
            }
            i = i + 1;
        }
        Ok(())
    }

    /// Reads a configuration from its line-oriented text form.
    pub fn parse_from_csv<'a, 'b>(csv: &'a str) -> (r: Result<TestConfig, ParseError<'b>>)
        ensures
            match csv_spec(csv@, None, Seq::empty()) {
                Ok(m) => r matches Ok(c) && config_matches(c, m),
                Err(k) => r matches Err(e) && csv_err_matches(e, k),
            },
    {
        let n = csv.unicode_len();
        let mut i: usize = 0;
        let mut header: Option<(String, String)> = None;
        let mut stages: Vec<TestStage> = Vec::new();
        let ghost mut gheader: Option<(Seq<char>, Seq<char>)> = None;
        let ghost mut gstages: Seq<StageModel> = Seq::empty();
        proof {
            assert(stages_match(stages@, gstages));
            assert(csv@.skip(0) =~= csv@);
        }
        while i < n
            invariant
                i <= n == csv@.len(),
                csv_spec(csv@, None, Seq::empty()) == csv_spec(
                    csv@.skip(i as int),
                    gheader,
                    gstages,
                ),
                match (header, gheader) {
                    (Some(h), Some(g)) => h.0@ == g.0 && h.1@ == g.1,
                    (None, None) => true,
                    _ => false,
                },
                stages_match(stages@, gstages),
            decreases n - i,
        {
            let ghost t = csv@.skip(i as int);
            // find the end of this line
            let mut k: usize = i;
            while k < n && csv.get_char(k) != '\n'
                invariant
                    i <= k <= n == csv@.len(),
                    forall|j: int| i <= j < k ==> #[trigger] csv@[j] != '\n',
                decreases n - k,
            {
                k = k + 1;
            }
            proof {
                assert forall|j: int| 0 <= j < k - i implies #[trigger] t[j] != '\n' by {
                    assert(t[j] == csv@[i + j]);
                }
                if (k - i) < t.len() {
                    assert(t[k - i] == csv@[k as int]);
                }
                lemma_find_char_at(t, '\n', k - i);
                assert(t.subrange(0, k - i) =~= csv@.subrange(i as int, k as int));
            }
            let bounds = trim_range(csv, i, k);
            let line_str = csv.substring_char(bounds.0, bounds.1);
            let next = if k < n {
                k + 1
            } else {
                n
            };
            proof {
                if k < n {
                    assert(t.skip((k - i) + 1) =~= csv@.skip(next as int));
                } else {
                    assert(csv@.skip(next as int) =~= Seq::<char>::empty());
                }
            }
            let ln = line_str.unicode_len();
            if ln == 0 || line_str.get_char(0) == '#' {
                i = next;
                continue ;
            }
            match tokenise_line(line_str) {
                Err(e) => {
                    return Err(e);
                },
                Ok(cols) => {
                    proof {
                        lemma_tok_tokens_len(line_str@, 0, false, Seq::empty(), Seq::empty());
                    }
                    let ghost ts = match tokenise_spec(line_str@) {
                        TokOutcome::Tokens(ts) => ts,
                        _ => Seq::empty(),
                    };
                    if str_eq_str(cols[0].as_str(), "TEST") {
                        if cols.len() < 3 {
                            return Err(
                                ParseError::InvalidTestHeader(
                                    "test header (TEST line) must contain >= 3 fields",
                                ),
                            );
                        }
                        header = Some((cols[1].clone(), cols[2].clone()));
                        proof {
                            gheader = Some((ts[1], ts[2]));
                        }
                    } else if str_eq_str(cols[0].as_str(), "AMBIENT") {
                        if cols.len() < 3 {
                            return Err(
                                ParseError::InvalidAmbientStage(
                                    "ambient stage must contain >= 3 fields",
                                ),
                            );
                        }
                        proof {
                            assert(cols@[1]@.subrange(0, cols@[1]@.len() as int) =~= cols@[1]@);
                            assert(cols@[2]@.subrange(0, cols@[2]@.len() as int) =~= cols@[2]@);
                        }
                        let purge = match parse_uns(cols[1].as_str(), 0, cols[1].unicode_len(), 255) {
                            Some(v) => v,
                            None => {
                                return Err(
                                    ParseError::InvalidAmbientStage(
                                        "ambient stage purge count must be an integer between 0 and 255",
                                    ),
                                );
                            },
                        };
                        let sample = match parse_uns(
                            cols[2].as_str(),
                            0,
                            cols[2].unicode_len(),
                            65535,
                        ) {
                            Some(v) => v,
                            None => {
                                return Err(
                                    ParseError::InvalidAmbientStage(
                                        "ambient stage purge count must be an integer between 0 and {u16::MAX}",
                                    ),
                                );
                            },
                        };
                        let ghost old_stages = stages@;
                        stages.push(
                            TestStage::AmbientSample {
                                counts: StageCounts {
                                    purge_count: purge as u8,
                                    sample_count: sample as u16,
                                },
                            },
                        );
                        proof {
                            gstages = gstages.push(
                                StageModel::Ambient { purge: purge as int, sample: sample as int },
                            );
                            assert(stages@ =~= old_stages.push(
                                TestStage::AmbientSample {
                                    counts: StageCounts {
                                        purge_count: purge as u8,
                                        sample_count: sample as u16,
                                    },
                                },
                            ));
                        }
                    } else if str_eq_str(cols[0].as_str(), "EXERCISE") {
                        if cols.len() < 4 {
                            return Err(
                                ParseError::InvalidExerciseStage(
                                    "exercise stage must contain >= 4 fields",
                                ),
                            );
                        }
                        proof {
                            assert(cols@[1]@.subrange(0, cols@[1]@.len() as int) =~= cols@[1]@);
                            assert(cols@[2]@.subrange(0, cols@[2]@.len() as int) =~= cols@[2]@);
                        }
                        let purge = match parse_uns(cols[1].as_str(), 0, cols[1].unicode_len(), 255) {
                            Some(v) => v,
                            None => {
                                return Err(
                                    ParseError::InvalidExerciseStage(
                                        "exercise stage purge count must be an integer between 0 and 255",
                                    ),
                                );
                            },
                        };
                        let sample = match parse_uns(
                            cols[2].as_str(),
                            0,
                            cols[2].unicode_len(),
                            65535,
                        ) {
                            Some(v) => v,
                            None => {
                                return Err(
                                    ParseError::InvalidExerciseStage(
                                        "exercise stage purge count must be an integer between 0 and {u16::MAX}",
                                    ),
                                );
                            },
                        };
                        let name = if cols[3].unicode_len() > 0 {
                            cols[3].clone()
                        } else {
                            "<no name>".to_owned()
                        };
                        let ghost old_stages = stages@;
                        let counts = StageCounts {
                            purge_count: purge as u8,
                            sample_count: sample as u16,
                        };
                        let ghost gname = name@;
                        stages.push(TestStage::Exercise { name, counts });
                        proof {
                            gstages = gstages.push(
                                StageModel::Exercise {
                                    name: gname,
                                    purge: purge as int,
                                    sample: sample as int,
                                },
                            );
                        }
                    } else {
                        let mut msg = "unsupported stage/command: ".to_owned();
                        msg.append(cols[0].as_str());
                        return Err(ParseError::Other(msg));
                    }
                },
            }
            i = next;
        }
        proof {
            assert(csv@.skip(n as int) =~= Seq::<char>::empty());
        }
        match header {
            Some(h) => Ok(TestConfig { name: h.1, short_name: h.0, stages }),
            None => Err(ParseError::InvalidTestHeader("test header (TEST line) not found")),
        }
    }

    /// How many of the stages are exercises.
    pub fn exercise_count(&self) -> (r: usize)
        ensures
            r == spec_exercise_names(self.stages@).len(),
    {
        let n = self.stages.len();
        let mut count: usize = 0;
        let mut i: usize = 0;
        while i < n
            invariant
                i <= n == self.stages@.len(),
                count <= i,
                count == spec_exercise_names(self.stages@.subrange(0, i as int)).len(),
            decreases n - i,
        {
            proof {
                assert(self.stages@.subrange(0, i + 1).drop_last() =~= self.stages@.subrange(
                    0,
                    i as int,
                ));
            }
            if self.stages[i].is_exercise() {
                count = count + 1;
            }
            i = i + 1;
        }
        proof {
            assert(self.stages@.subrange(0, self.stages@.len() as int) =~= self.stages@);
        }
        count
    }

    /// The names of the exercises, in stage order.
    pub fn exercise_names(&self) -> (r: Vec<String>)
        ensures
            strings_match(r@, spec_exercise_names(self.stages@)),
    {
        let n = self.stages.len();
        let mut out: Vec<String> = Vec::new();
        let mut i: usize = 0;
        while i < n
            invariant
                i <= n == self.stages@.len(),
                strings_match(out@, spec_exercise_names(self.stages@.subrange(0, i as int))),
            decreases n - i,
        {
            proof {
                assert(self.stages@.subrange(0, i + 1).drop_last() =~= self.stages@.subrange(
                    0,
                    i as int,
                ));
            }
            match &self.stages[i] {
                TestStage::Exercise { name, .. } => {
                    out.push(name.clone());
                },
                TestStage::AmbientSample { .. } => {},
            }
            i = i + 1;
        }
        proof {
            assert(self.stages@.subrange(0, self.stages@.len() as int) =~= self.stages@);
        }
        out
    }
}

} // verus!
