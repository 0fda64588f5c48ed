//! Line-oriented parsing of assembly source text into typed instructions.
//!
//! Each non-blank, non-comment line holds one instruction: a mnemonic,
//! then a comma-separated operand list.  Parsing is fail-fast: the first
//! line that does not validate stops the whole parse with a diagnostic.

use crate::text::{
    find_char, first_sep, lower_spec, num_str_valid, num_str_value, seq_views, split_spec,
    split_str, str_eq, to_lowercase_str, trim_of, trim_spec,
};
use vstd::prelude::*;
use vstd::string::StrSliceExecFns;

verus! {

/// The closed set of instructions the virtual machine understands.
///
/// `register` and `immediate` operands are non-negative integers with no
/// upper bound at the parse stage; the encoder truncates them to their
/// field widths.
#[derive(Clone, Copy, PartialEq, Eq, Structural, Debug)]
pub enum Instructions {
    Mov { dest: usize, source: usize },
    Add { dest: usize, source: usize },
    Sub { dest: usize, source: usize },
    Mult { dest: usize, source: usize },
    Div { dest: usize, source: usize },
    Xor { dest: usize, source: usize },
    Cmp { dest: usize, source: usize },
    Out { source: usize },
    In { dest: usize },
    Hlt,
}

/// What went wrong on one source line.
///
/// `index` is the 1-based position of the offending operand in the
/// operand list.
#[derive(Clone, PartialEq, Eq, Debug)]
pub enum LineError {
    /// An operand the mnemonic needs is missing.
    MissingArgument { index: usize },
    /// A register operand was expected: the token must be `r` followed by
    /// a non-negative integer.
    MustBeRegister { index: usize },
    /// A value operand was expected: the token must be a non-negative
    /// integer and must not start with `r`.
    MustBeNumber { index: usize },
    /// The line is not `hlt` and has no space after the mnemonic.
    NoOperands,
    /// The mnemonic is not in the instruction table.
    UnknownMnemonic { mnemonic: String },
}

/// The mathematical shape of a [`LineError`]: the unknown mnemonic is a
/// character sequence rather than an owned string.
pub enum LineErrorModel {
    MissingArgument { index: usize },
    MustBeRegister { index: usize },
    MustBeNumber { index: usize },
    NoOperands,
    UnknownMnemonic { mnemonic: Seq<char> },
}

/// Whether the executable diagnostic `e` denotes the model diagnostic `m`.
pub open spec fn line_error_matches(e: LineError, m: LineErrorModel) -> bool {
    match (e, m) {
        (
            LineError::MissingArgument { index: a },
            LineErrorModel::MissingArgument { index: b },
        ) => a == b,
        (
            LineError::MustBeRegister { index: a },
            LineErrorModel::MustBeRegister { index: b },
        ) => a == b,
        (LineError::MustBeNumber { index: a }, LineErrorModel::MustBeNumber { index: b }) => a
            == b,
        (LineError::NoOperands, LineErrorModel::NoOperands) => true,
        (
            LineError::UnknownMnemonic { mnemonic: s },
            LineErrorModel::UnknownMnemonic { mnemonic: t },
        ) => s@ == t,
        _ => false,
    }
}

/// The register operand at position `i` of the operand list: after
/// trimming, the token must be the letter `r` followed by a non-negative
/// integer, the register index.
pub open spec fn reg_operand(toks: Seq<Seq<char>>, i: int) -> Result<usize, LineErrorModel> {
    if !(0 <= i < toks.len()) {
        Err(LineErrorModel::MissingArgument { index: (i + 1) as usize })
    } else {
        let t = trim_spec(toks[i]);
        if t.len() == 0 || t[0] != 'r' {
            Err(LineErrorModel::MustBeRegister { index: (i + 1) as usize })
        } else if !num_str_valid(t.skip(1)) {
            Err(LineErrorModel::MustBeRegister { index: (i + 1) as usize })
        } else {
            Ok(num_str_value(t.skip(1)) as usize)
        }
    }
}

/// The value operand at position `i` of the operand list: after trimming,
/// the token must be a non-negative integer; a token starting with `r` is
/// rejected as a number even if the rest would parse.
pub open spec fn val_operand(toks: Seq<Seq<char>>, i: int) -> Result<usize, LineErrorModel> {
    if !(0 <= i < toks.len()) {
        Err(LineErrorModel::MissingArgument { index: (i + 1) as usize })
    } else {
        let t = trim_spec(toks[i]);
        if t.len() > 0 && t[0] == 'r' {
            Err(LineErrorModel::MustBeNumber { index: (i + 1) as usize })
        } else if !num_str_valid(t) {
            Err(LineErrorModel::MustBeNumber { index: (i + 1) as usize })
        } else {
            Ok(num_str_value(t) as usize)
        }
    }
}

/// The first two operands read as registers, in order, failing on the
/// first that does not validate.
pub open spec fn two_regs(toks: Seq<Seq<char>>) -> Result<(usize, usize), LineErrorModel> {
    match reg_operand(toks, 0) {
        Err(e) => Err(e),
        Ok(a) => match reg_operand(toks, 1) {
            Err(e) => Err(e),
            Ok(b) => Ok((a, b)),
        },
    }
}

/// The instruction denoted by one trimmed, lower-cased source line.
///
/// `hlt` is recognised whole-line; every other mnemonic is the text before
/// the first space, and the text after it is the comma-separated operand
/// list.
pub open spec fn line_spec(line: Seq<char>) -> Result<Instructions, LineErrorModel> {
    if line == "hlt"@ {
        Ok(Instructions::Hlt)
    } else {
        let i = first_sep(line, ' ');
        if i >= line.len() {
            Err(LineErrorModel::NoOperands)
        } else {
            let mnemonic = line.take(i);
            let toks = split_spec(line.skip(i + 1), ',');
            if mnemonic == "mov"@ {
                match reg_operand(toks, 0) {
                    Err(e) => Err(e),
                    Ok(d) => match val_operand(toks, 1) {
                        Err(e) => Err(e),
                        Ok(v) => Ok(Instructions::Mov { dest: d, source: v }),
                    },
                }
            } else if mnemonic == "add"@ {
                match two_regs(toks) {
                    Err(e) => Err(e),
                    Ok((a, b)) => Ok(Instructions::Add { dest: a, source: b }),
                }
            } else if mnemonic == "sub"@ {
                match two_regs(toks) {
                    Err(e) => Err(e),
                    Ok((a, b)) => Ok(Instructions::Sub { dest: a, source: b }),
                }
            } else if mnemonic == "mult"@ {
                match two_regs(toks) {
                    Err(e) => Err(e),
                    Ok((a, b)) => Ok(Instructions::Mult { dest: a, source: b }),
                }
            } else if mnemonic == "div"@ {
                match two_regs(toks) {
                    Err(e) => Err(e),
                    Ok((a, b)) => Ok(Instructions::Div { dest: a, source: b }),
                }
            } else if mnemonic == "xor"@ {
                match two_regs(toks) {
                    Err(e) => Err(e),
                    Ok((a, b)) => Ok(Instructions::Xor { dest: a, source: b }),
                }
            } else if mnemonic == "cmp"@ {
                match two_regs(toks) {
                    Err(e) => Err(e),
                    Ok((a, b)) => Ok(Instructions::Cmp { dest: a, source: b }),
                }
            } else if mnemonic == "out"@ {
                match reg_operand(toks, 0) {
                    Err(e) => Err(e),
                    Ok(a) => Ok(Instructions::Out { source: a }),
                }
            } else if mnemonic == "in"@ {
                match reg_operand(toks, 0) {
                    Err(e) => Err(e),
                    Ok(a) => Ok(Instructions::In { dest: a }),
                }
            } else {
                Err(LineErrorModel::UnknownMnemonic { mnemonic })
            }
        }
    }
}

pub open spec fn usize_res_matches(
    r: Result<usize, LineError>,
    m: Result<usize, LineErrorModel>,
) -> bool {
    match (r, m) {
        (Ok(a), Ok(b)) => a == b,
        (Err(e), Err(me)) => line_error_matches(e, me),
        _ => false,
    }
}

pub open spec fn pair_res_matches(
    r: Result<(usize, usize), LineError>,
    m: Result<(usize, usize), LineErrorModel>,
) -> bool {
    match (r, m) {
        (Ok(a), Ok(b)) => a == b,
        (Err(e), Err(me)) => line_error_matches(e, me),
        _ => false,
    }
}

pub open spec fn inst_res_matches(
    r: Result<Instructions, LineError>,
    m: Result<Instructions, LineErrorModel>,
) -> bool {
    match (r, m) {
        (Ok(a), Ok(b)) => a == b,
        (Err(e), Err(me)) => line_error_matches(e, me),
        _ => false,
    }
}

/// Whether a trimmed line is skipped: blank lines and `#` comments.
pub open spec fn skip_line(t: Seq<char>) -> bool {
    t.len() == 0 || t[0] == '#'
}

/// The instructions denoted by a sequence of source lines, or, on the
/// first line that fails, the reported line counter, the cause, and the
/// instructions parsed before the failure.
///
/// `n` is the running line counter.  It advances only after a line parses
/// successfully — not for skipped lines — so the counter a diagnostic
/// reports is one more than the number of lines parsed so far, which can
/// sit below the physical line number when comments or blank lines
/// precede the failure.
pub open spec fn parse_lines(lines: Seq<Seq<char>>, n: nat) -> Result<
    Seq<Instructions>,
    (nat, LineErrorModel, Seq<Instructions>),
>
    decreases lines.len(),
{
    if lines.len() == 0 {
        Ok(Seq::empty())
    } else {
        let t = trim_spec(lines[0]);
        if skip_line(t) {
            parse_lines(lines.skip(1), n)
        } else {
            match line_spec(lower_spec(t)) {
                Ok(inst) => match parse_lines(lines.skip(1), n + 1) {
                    Ok(rest) => Ok(seq![inst] + rest),
                    Err((m, e, done)) => Err((m, e, seq![inst] + done)),
                },
                Err(e) => Err((n, e, Seq::empty())),
            }
        }
    }
}

/// The outcome of parsing whole source text: its lines are the pieces of
/// the text between newlines, and the counter starts at 1.
pub open spec fn parse_spec(src: Seq<char>) -> Result<
    Seq<Instructions>,
    (nat, LineErrorModel, Seq<Instructions>),
> {
    parse_lines(split_spec(src, '\n'), 1)
}

/// The instructions a parse run appends, whether it succeeds or fails.
pub open spec fn parsed_prefix(src: Seq<char>) -> Seq<Instructions> {
    match parse_spec(src) {
        Ok(insts) => insts,
        Err((n, e, done)) => done,
    }
}

spec fn with_prefix(
    prefix: Seq<Instructions>,
    r: Result<Seq<Instructions>, (nat, LineErrorModel, Seq<Instructions>)>,
) -> Result<Seq<Instructions>, (nat, LineErrorModel, Seq<Instructions>)> {
    match r {
        Ok(rest) => Ok(prefix + rest),
        Err((n, e, done)) => Err((n, e, prefix + done)),
    }
}

/// The diagnostic of a failed parse: the display name of the source, the
/// reported line counter and the cause.
#[derive(Debug)]
pub struct ParseError {
    pub filename: String,
    pub line: usize,
    pub cause: LineError,
}

/// Accumulates the instructions parsed from source text.
pub struct Parser {
    instructions: Vec<Instructions>,
}

impl View for Parser {
    type V = Seq<Instructions>;

    closed spec fn view(&self) -> Seq<Instructions> {
        self.instructions@
    }
}

impl Parser {
    pub fn new() -> (r: Parser)
        ensures
            r@ == Seq::<Instructions>::empty(),
    {
        Parser { instructions: Vec::new() }
    }

    /// The register index of a token whose first character is already
    /// known to be `r`: the rest of the token read as a number.
    pub fn parse_register(&mut self, line: &str) -> (r: Result<usize, ()>)
        requires
            line@.len() >= 1,
        ensures
            final(self)@ == old(self)@,
            r is Ok <==> num_str_valid(line@.skip(1)),
            r is Ok ==> r->Ok_0 == num_str_value(line@.skip(1)),
    {
        let len = line.unicode_len();
        let rest = line.substring_char(1, len);
        proof {
            assert(rest@ =~= line@.skip(1));
        }
        crate::text::read_number(rest)
    }

    /// A token read as a non-negative integer.
    pub fn parse_num(&mut self, line: &str) -> (r: Result<usize, ()>)
        ensures
            final(self)@ == old(self)@,
            r is Ok <==> num_str_valid(line@),
            r is Ok ==> r->Ok_0 == num_str_value(line@),
    {
        crate::text::read_number(line)
    }

    fn reg_arg(&mut self, toks: &Vec<String>, i: usize) -> (r: Result<usize, LineError>)
        requires
            i < 2,
        ensures
            final(self)@ == old(self)@,
            usize_res_matches(r, reg_operand(seq_views(toks@), i as int)),
    {
        if i >= toks.len() {
            return Err(LineError::MissingArgument { index: i + 1 });
        }
        let t = trim_of(toks[i].as_str());
        proof {
            assert(seq_views(toks@)[i as int] == toks@[i as int]@);
        }
        if t.unicode_len() == 0 || t.get_char(0) != 'r' {
            return Err(LineError::MustBeRegister { index: i + 1 });
        }
        match self.parse_register(t) {
            Ok(v) => Ok(v),
            Err(_) => Err(LineError::MustBeRegister { index: i + 1 }),
        }
    }

    fn val_arg(&mut self, toks: &Vec<String>, i: usize) -> (r: Result<usize, LineError>)
        requires
            i < 2,
        ensures
            final(self)@ == old(self)@,
            usize_res_matches(r, val_operand(seq_views(toks@), i as int)),
    {
        if i >= toks.len() {
            return Err(LineError::MissingArgument { index: i + 1 });
        }
        let t = trim_of(toks[i].as_str());
        proof {
            assert(seq_views(toks@)[i as int] == toks@[i as int]@);
        }
        if t.unicode_len() > 0 && t.get_char(0) == 'r' {
            return Err(LineError::MustBeNumber { index: i + 1 });
        }
        match self.parse_num(t) {
            Ok(v) => Ok(v),
            Err(_) => Err(LineError::MustBeNumber { index: i + 1 }),
        }
    }

    fn two_reg_args(&mut self, toks: &Vec<String>) -> (r: Result<(usize, usize), LineError>)
        ensures
            final(self)@ == old(self)@,
            pair_res_matches(r, two_regs(seq_views(toks@))),
    {
        let a = match self.reg_arg(toks, 0) {
            Ok(v) => v,
            Err(e) => {
                return Err(e);
            },
        };
        let b = match self.reg_arg(toks, 1) {
            Ok(v) => v,
            Err(e) => {
                return Err(e);
            },
        };
        Ok((a, b))
    }

    /// One trimmed, lower-cased source line read as an instruction.
    pub fn parse_line(&mut self, line: &str) -> (r: Result<Instructions, LineError>)
        ensures
            final(self)@ == old(self)@,
            inst_res_matches(r, line_spec(line@)),
    {
        if str_eq(line, "hlt") {
            return Ok(Instructions::Hlt);
        }
        let len = line.unicode_len();
        let sp = find_char(line, ' ');
        if sp == len {
            return Err(LineError::NoOperands);
        }
        let mnemonic = line.substring_char(0, sp);
        let rest = line.substring_char(sp + 1, len);
        let toks = split_str(rest, ',');
        proof {
            assert(mnemonic@ =~= line@.take(sp as int));
            assert(rest@ =~= line@.skip(sp + 1));
        }
        if str_eq(mnemonic, "mov") {
            let d = match self.reg_arg(&toks, 0) {
                Ok(v) => v,
                Err(e) => {
                    return Err(e);
                },
            };
            let v = match self.val_arg(&toks, 1) {
                Ok(v) => v,
                Err(e) => {
                    return Err(e);
                },
            };
            Ok(Instructions::Mov { dest: d, source: v })
        } else if str_eq(mnemonic, "add") {
            match self.two_reg_args(&toks) {
                Ok((a, b)) => Ok(Instructions::Add { dest: a, source: b }),
                Err(e) => Err(e),
            }
        } else if str_eq(mnemonic, "sub") {
            match self.two_reg_args(&toks) {
                Ok((a, b)) => Ok(Instructions::Sub { dest: a, source: b }),
                Err(e) => Err(e),
            }
        } else if str_eq(mnemonic, "mult") {
            match self.two_reg_args(&toks) {
                Ok((a, b)) => Ok(Instructions::Mult { dest: a, source: b }),
                Err(e) => Err(e),
            }
        } else if str_eq(mnemonic, "div") {
            match self.two_reg_args(&toks) {
                Ok((a, b)) => Ok(Instructions::Div { dest: a, source: b }),
                Err(e) => Err(e),
            }
        } else if str_eq(mnemonic, "xor") {
            match self.two_reg_args(&toks) {
                Ok((a, b)) => Ok(Instructions::Xor { dest: a, source: b }),
                Err(e) => Err(e),
            }
        } else if str_eq(mnemonic, "cmp") {
            match self.two_reg_args(&toks) {
                Ok((a, b)) => Ok(Instructions::Cmp { dest: a, source: b }),
                Err(e) => Err(e),
            }
        } else if str_eq(mnemonic, "out") {
            match self.reg_arg(&toks, 0) {
                Ok(a) => Ok(Instructions::Out { source: a }),
                Err(e) => Err(e),
            }
        } else if str_eq(mnemonic, "in") {
            match self.reg_arg(&toks, 0) {
                Ok(a) => Ok(Instructions::In { dest: a }),
                Err(e) => Err(e),
            }
        } else {
            Err(LineError::UnknownMnemonic { mnemonic: mnemonic.to_owned() })
        }
    }

    /// Parse whole source text, appending the instructions to the ones
    /// already held, and fail fast on the first bad line.
    ///
    /// On failure the diagnostic carries `filename` as the display name of
    /// the source, the reported line counter and the cause; the lines
    /// parsed before the failure stay appended, but no instruction list is
    /// returned.
    pub fn parse(&mut self, src: &str, filename: &str) -> (r: Result<&Vec<Instructions>, ParseError>)
        ensures
            final(self)@ == old(self)@ + parsed_prefix(src@),
            match parse_spec(src@) {
                Ok(insts) => r is Ok && r->Ok_0@ == final(self)@,
                Err((n, e, done)) => r is Err && r->Err_0.line == n && line_error_matches(
                    r->Err_0.cause,
                    e,
                ) && r->Err_0.filename@ == filename@,
            },
    {
        let lines = split_str(src, '\n');
        let ghost lviews = seq_views(lines@);
        let ghost base = self.instructions@;
        let mut count: usize = 0;
        let mut k: usize = 0;
        proof {
            assert(lviews.skip(0) =~= lviews);
            assert(self.instructions@.skip(base.len() as int) =~= Seq::<Instructions>::empty());
            match parse_lines(lviews, 1nat) {
                Ok(rest) => {
                    assert(Seq::<Instructions>::empty() + rest =~= rest);
                },
                Err((n, e, done)) => {
                    assert(Seq::<Instructions>::empty() + done =~= done);
                },
            }
        }
        while k < lines.len()
            invariant
                k <= lines.len(),
                count <= k,
                lviews == seq_views(lines@),
                lviews == split_spec(src@, '\n'),
                lviews.len() == lines@.len(),
                base == old(self).instructions@,
                self.instructions@.len() == base.len() + count,
                self.instructions@.take(base.len() as int) == base,
                parse_lines(lviews, 1nat) == with_prefix(
                    self.instructions@.skip(base.len() as int),
                    parse_lines(lviews.skip(k as int), (count + 1) as nat),
                ),
            decreases lines.len() - k,
        {
            let ghost suffix = self.instructions@.skip(base.len() as int);
            let ghost rest_lines = lviews.skip(k as int);
            proof {
                assert(rest_lines[0] == lviews[k as int]);
                assert(lviews[k as int] == lines@[k as int]@);
                assert(rest_lines.skip(1) =~= lviews.skip(k + 1));
            }
            let t = trim_of(lines[k].as_str());
            let tlen = t.unicode_len();
            if tlen == 0 || t.get_char(0) == '#' {
                k += 1;
            } else {
                let lowered = to_lowercase_str(t);
                match self.parse_line(lowered.as_str()) {
                    Ok(inst) => {
                        self.instructions.push(inst);
                        count += 1;
                        k += 1;
                        proof {
                            let new_suffix = self.instructions@.skip(base.len() as int);
                            assert(new_suffix =~= suffix + seq![inst]);
                            assert(self.instructions@.take(base.len() as int) =~= base);
                            match parse_lines(lviews.skip(k as int), (count + 1) as nat) {
                                Ok(rest) => {
                                    assert(suffix + (seq![inst] + rest) =~= new_suffix + rest);
                                },
                                Err((m, e, done)) => {
                                    assert(suffix + (seq![inst] + done) =~= new_suffix + done);
                                },
                            }
                        }
                    },
                    Err(e) => {
                        proof {
                            assert(suffix + Seq::<Instructions>::empty() =~= suffix);
                        }
                        return Err(
                            ParseError {
                                filename: filename.to_owned(),
                                line: count + 1,
                                cause: e,
                            },
                        );
                    },
                }
            }
        }
        proof {
            assert(lviews.skip(lviews.len() as int) =~= Seq::<Seq<char>>::empty());
            let suffix = self.instructions@.skip(base.len() as int);
            assert(suffix + Seq::<Instructions>::empty() =~= suffix);
            assert(base + suffix =~= self.instructions@);
        }
        Ok(&self.instructions)
    }
}

} // verus!
