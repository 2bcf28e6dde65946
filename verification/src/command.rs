//! The interactive command grammar.
//!
//! One command per line, whitespace-tokenized.  The verbs are
//! `load`, `list`, `show`, `combine`, `output`, `tev` and `exit`;
//! `#` and `//` open comment lines, anything else asks for the help
//! text.  The multi-entry commands (`combine`, multi-entry `output`)
//! read further lines from a sub-prompt until a blank line; those
//! lines are decoded by [`parse_combine_entry_line`] and
//! [`parse_output_entry_line`].
//!
//! Every function here only decides; reading lines and printing
//! answers stays with the caller.

use vstd::prelude::*;
use crate::fixed::{fixed_of, parse_fixed, u32_of, parse_u32};
use crate::render::Backend;
use crate::text::{
    lemma_split_of_nonempty, split, split_of, str_eq, trim, trim_of,
};

verus! {

/// The options of an `output` command.
#[derive(Clone, Copy, Debug, PartialEq, Eq, Structural)]
pub struct OutputOptions {
    pub backend: Backend,
    /// Canvas units per meter, fixed-point millionths.
    pub scale: i64,
    /// Half-extent of the canvas, fixed-point millionths.
    pub clip: i64,
    pub help: bool,
}

/// The options an `output` command starts from: raster backend, a
/// scale of 1000 and a clip position of 2.
pub fn default_output_options() -> (r: OutputOptions)
    ensures
        r == (OutputOptions {
            backend: Backend::Raster,
            scale: 1_000_000_000,
            clip: 2_000_000,
            help: false,
        }),
{
    OutputOptions { backend: Backend::Raster, scale: 1_000_000_000, clip: 2_000_000, help: false }
}

/// Why the options of an `output` command were refused.
#[derive(Debug)]
pub enum OptionsError {
    /// `--scale` at the end of the line.
    ScaleMissing,
    /// `--scale` followed by something that is not a number; carries
    /// the token.
    ScaleNotNumber(String),
    /// `--scale` with a value that is not positive.
    ScaleNotPositive,
    /// `--clip` at the end of the line.
    ClipMissing,
    /// `--clip` followed by something that is not a number.
    ClipNotNumber(String),
    /// `--clip` with a value that is not positive.
    ClipNotPositive,
}

/// The mathematical image of an options error.
pub ghost enum OptionsErrorModel {
    ScaleMissing,
    ScaleNotNumber(Seq<char>),
    ScaleNotPositive,
    ClipMissing,
    ClipNotNumber(Seq<char>),
    ClipNotPositive,
}

impl View for OptionsError {
    type V = OptionsErrorModel;

    open spec fn view(&self) -> OptionsErrorModel {
        match self {
            OptionsError::ScaleMissing => OptionsErrorModel::ScaleMissing,
            OptionsError::ScaleNotNumber(t) => OptionsErrorModel::ScaleNotNumber(t@),
            OptionsError::ScaleNotPositive => OptionsErrorModel::ScaleNotPositive,
            OptionsError::ClipMissing => OptionsErrorModel::ClipMissing,
            OptionsError::ClipNotNumber(t) => OptionsErrorModel::ClipNotNumber(t@),
            OptionsError::ClipNotPositive => OptionsErrorModel::ClipNotPositive,
        }
    }
}

/// The options scan, starting at token `i`: every recognized flag is
/// consumed; `--` stops the scan consuming itself; the first other
/// token stops it and stays.  Returns the options and the index of
/// the first unconsumed token.
pub open spec fn spec_parse_options(toks: Seq<Seq<char>>, i: int, acc: OutputOptions) -> Result<
    (OutputOptions, int),
    OptionsErrorModel,
>
    decreases toks.len() - i,
{
    if i < 0 || i >= toks.len() {
        Ok((acc, i))
    } else if toks[i] == "--"@ {
        Ok((acc, i + 1))
    } else if toks[i] == "--png"@ {
        spec_parse_options(toks, i + 1, OutputOptions { backend: Backend::Raster, ..acc })
    } else if toks[i] == "--svg"@ {
        spec_parse_options(toks, i + 1, OutputOptions { backend: Backend::Vector, ..acc })
    } else if toks[i] == "--help"@ {
        spec_parse_options(toks, i + 1, OutputOptions { help: true, ..acc })
    } else if toks[i] == "--scale"@ {
        if i + 1 >= toks.len() {
            Err(OptionsErrorModel::ScaleMissing)
        } else {
            match fixed_of(toks[i + 1]) {
                Option::None => Err(OptionsErrorModel::ScaleNotNumber(toks[i + 1])),
                Option::Some(v) => if v > 0 {
                    spec_parse_options(toks, i + 2, OutputOptions { scale: v as i64, ..acc })
                } else {
                    Err(OptionsErrorModel::ScaleNotPositive)
                },
            }
        }
    } else if toks[i] == "--clip"@ {
        if i + 1 >= toks.len() {
            Err(OptionsErrorModel::ClipMissing)
        } else {
            match fixed_of(toks[i + 1]) {
                Option::None => Err(OptionsErrorModel::ClipNotNumber(toks[i + 1])),
                Option::Some(v) => if v > 0 {
                    spec_parse_options(toks, i + 2, OutputOptions { clip: v as i64, ..acc })
                } else {
                    Err(OptionsErrorModel::ClipNotPositive)
                },
            }
        }
    } else {
        Ok((acc, i))
    }
}

/// Scans `output` options, per [`spec_parse_options`].
pub fn parse_options(toks: &Vec<String>, start: usize) -> (r: Result<
    (OutputOptions, usize),
    OptionsError,
>)
    ensures
        match r {
            Ok((o, next)) => spec_parse_options(toks.deep_view(), start as int, OutputOptions {
                backend: Backend::Raster,
                scale: 1_000_000_000,
                clip: 2_000_000,
                help: false,
            }) == Ok::<_, OptionsErrorModel>((o, next as int)),
            Err(e) => spec_parse_options(toks.deep_view(), start as int, OutputOptions {
                backend: Backend::Raster,
                scale: 1_000_000_000,
                clip: 2_000_000,
                help: false,
            }) == Err::<(OutputOptions, int), _>(e@),
        },
{
    let ghost tv = toks.deep_view();
    let ghost start_opts = OutputOptions {
        backend: Backend::Raster,
        scale: 1_000_000_000,
        clip: 2_000_000,
        help: false,
    };
    let mut acc = default_output_options();
    let mut i: usize = start;
    while i < toks.len()
        invariant
            start <= i,
            tv == toks.deep_view(),
            tv.len() == toks@.len(),
            start_opts == (OutputOptions {
                backend: Backend::Raster,
                scale: 1_000_000_000,
                clip: 2_000_000,
                help: false,
            }),
            spec_parse_options(tv, start as int, start_opts) == spec_parse_options(
                tv,
                i as int,
                acc,
            ),
        decreases toks@.len() - i,
    {
        proof {
            assert(tv[i as int] == toks@[i as int]@);
        }
        let t = &toks[i];
        if str_eq(t.as_str(), "--") {
            return Ok((acc, i + 1));
        } else if str_eq(t.as_str(), "--png") {
            acc.backend = Backend::Raster;
            i = i + 1;
        } else if str_eq(t.as_str(), "--svg") {
            acc.backend = Backend::Vector;
            i = i + 1;
        } else if str_eq(t.as_str(), "--help") {
            acc.help = true;
            i = i + 1;
        } else if str_eq(t.as_str(), "--scale") {
            if i + 1 >= toks.len() {
                return Err(OptionsError::ScaleMissing);
            }
            proof {
                assert(tv[i as int + 1] == toks@[i as int + 1]@);
            }
            match parse_fixed(toks[i + 1].as_str()) {
                Some(v) => {
                    if v > 0 {
                        acc.scale = v;
                        i = i + 2;
                    } else {
                        return Err(OptionsError::ScaleNotPositive);
                    }
                },
                None => {
                    return Err(OptionsError::ScaleNotNumber(toks[i + 1].clone()));
                },
            }
        } else if str_eq(t.as_str(), "--clip") {
            if i + 1 >= toks.len() {
                return Err(OptionsError::ClipMissing);
            }
            proof {
                assert(tv[i as int + 1] == toks@[i as int + 1]@);
            }
            match parse_fixed(toks[i + 1].as_str()) {
                Some(v) => {
                    if v > 0 {
                        acc.clip = v;
                        i = i + 2;
                    } else {
                        return Err(OptionsError::ClipNotPositive);
                    }
                },
                None => {
                    return Err(OptionsError::ClipNotNumber(toks[i + 1].clone()));
                },
            }
        } else {
            return Ok((acc, i));
        }
    }
    Ok((acc, i))
}

/// One parsed command line; usage variants stand for inputs that only
/// earn the usage text, each carrying what the caller reports.
#[derive(Debug)]
pub enum Command {
    /// A blank line.
    Nothing,
    /// A comment line (`#` or `//`).
    Comment,
    /// An unrecognized verb: print the general help.
    Help,
    Exit,
    List,
    /// Files to load, in order.
    Load(Vec<String>),
    LoadUsage,
    Show(String, u32),
    ShowUsage,
    /// `show` with a sequence that is not a number; carries the token.
    ShowBadNumber(String),
    Tev(String, u32),
    TevUsage,
    TevBadNumber(String),
    Combine(String, u32),
    CombineUsage,
    CombineBadNumber(String),
    /// `output` whose options were refused.
    OutputBadOptions(OptionsError),
    /// `output --help`.
    OutputHelp,
    /// `output` with nothing after the options.
    OutputMissingArgs,
    /// `output [options] file`: combine entries from a sub-prompt
    /// into the named file.
    OutputMulti(OutputOptions, String),
    /// `output [options] label seq [hue]`: label, the raw sequence
    /// token (`*` selects every entry of the label), and the hue in
    /// micro-degrees (zero when absent).
    OutputEntry(OutputOptions, String, String, i64),
    /// `output` with a hue that is not a number; carries the token.
    OutputBadHue(String),
    OutputTooMany,
}

/// The mathematical image of a command.
pub ghost enum CommandModel {
    Nothing,
    Comment,
    Help,
    Exit,
    List,
    Load(Seq<Seq<char>>),
    LoadUsage,
    Show(Seq<char>, u32),
    ShowUsage,
    ShowBadNumber(Seq<char>),
    Tev(Seq<char>, u32),
    TevUsage,
    TevBadNumber(Seq<char>),
    Combine(Seq<char>, u32),
    CombineUsage,
    CombineBadNumber(Seq<char>),
    OutputBadOptions(OptionsErrorModel),
    OutputHelp,
    OutputMissingArgs,
    OutputMulti(OutputOptions, Seq<char>),
    OutputEntry(OutputOptions, Seq<char>, Seq<char>, i64),
    OutputBadHue(Seq<char>),
    OutputTooMany,
}

impl View for Command {
    type V = CommandModel;

    open spec fn view(&self) -> CommandModel {
        match self {
            Command::Nothing => CommandModel::Nothing,
            Command::Comment => CommandModel::Comment,
            Command::Help => CommandModel::Help,
            Command::Exit => CommandModel::Exit,
            Command::List => CommandModel::List,
            Command::Load(fs) => CommandModel::Load(fs.deep_view()),
            Command::LoadUsage => CommandModel::LoadUsage,
            Command::Show(l, n) => CommandModel::Show(l@, *n),
            Command::ShowUsage => CommandModel::ShowUsage,
            Command::ShowBadNumber(t) => CommandModel::ShowBadNumber(t@),
            Command::Tev(l, n) => CommandModel::Tev(l@, *n),
            Command::TevUsage => CommandModel::TevUsage,
            Command::TevBadNumber(t) => CommandModel::TevBadNumber(t@),
            Command::Combine(l, n) => CommandModel::Combine(l@, *n),
            Command::CombineUsage => CommandModel::CombineUsage,
            Command::CombineBadNumber(t) => CommandModel::CombineBadNumber(t@),
            Command::OutputBadOptions(e) => CommandModel::OutputBadOptions(e@),
            Command::OutputHelp => CommandModel::OutputHelp,
            Command::OutputMissingArgs => CommandModel::OutputMissingArgs,
            Command::OutputMulti(o, f) => CommandModel::OutputMulti(*o, f@),
            Command::OutputEntry(o, l, s, h) => CommandModel::OutputEntry(*o, l@, s@, *h),
            Command::OutputBadHue(t) => CommandModel::OutputBadHue(t@),
            Command::OutputTooMany => CommandModel::OutputTooMany,
        }
    }
}

/// The reading of an `output` command's arguments after its options.
pub open spec fn spec_output_command(toks: Seq<Seq<char>>) -> CommandModel {
    match spec_parse_options(toks, 1, OutputOptions {
        backend: Backend::Raster,
        scale: 1_000_000_000,
        clip: 2_000_000,
        help: false,
    }) {
        Err(e) => CommandModel::OutputBadOptions(e),
        Ok((o, next)) => {
            if o.help {
                CommandModel::OutputHelp
            } else if toks.len() <= next {
                CommandModel::OutputMissingArgs
            } else if toks.len() - 1 == next {
                CommandModel::OutputMulti(o, toks[next])
            } else if toks.len() - 2 == next {
                CommandModel::OutputEntry(o, toks[next], toks[next + 1], 0)
            } else if toks.len() - 3 == next {
                match fixed_of(toks[next + 2]) {
                    Option::None => CommandModel::OutputBadHue(toks[next + 2]),
                    Option::Some(h) => CommandModel::OutputEntry(
                        o,
                        toks[next],
                        toks[next + 1],
                        h as i64,
                    ),
                }
            } else {
                CommandModel::OutputTooMany
            }
        },
    }
}

/// The reading of one command line: the trimmed line is split on
/// blanks, the first token picks the verb, and the rest follow that
/// verb's grammar.
pub open spec fn spec_parse_command(line: Seq<char>) -> CommandModel {
    let toks = split_of(trim_of(line), ' ');
    let cmd = toks[0];
    if cmd.len() == 0 {
        CommandModel::Nothing
    } else if cmd == "#"@ || cmd == "//"@ {
        CommandModel::Comment
    } else if cmd == "exit"@ {
        CommandModel::Exit
    } else if cmd == "list"@ {
        CommandModel::List
    } else if cmd == "load"@ {
        if toks.len() < 2 {
            CommandModel::LoadUsage
        } else {
            CommandModel::Load(toks.skip(1))
        }
    } else if cmd == "show"@ {
        if toks.len() != 3 {
            CommandModel::ShowUsage
        } else {
            match u32_of(toks[2]) {
                Option::None => CommandModel::ShowBadNumber(toks[2]),
                Option::Some(n) => CommandModel::Show(toks[1], n as u32),
            }
        }
    } else if cmd == "tev"@ {
        if toks.len() != 3 {
            CommandModel::TevUsage
        } else {
            match u32_of(toks[2]) {
                Option::None => CommandModel::TevBadNumber(toks[2]),
                Option::Some(n) => CommandModel::Tev(toks[1], n as u32),
            }
        }
    } else if cmd == "combine"@ {
        if toks.len() != 3 {
            CommandModel::CombineUsage
        } else {
            match u32_of(toks[2]) {
                Option::None => CommandModel::CombineBadNumber(toks[2]),
                Option::Some(n) => CommandModel::Combine(toks[1], n as u32),
            }
        }
    } else if cmd == "output"@ {
        spec_output_command(toks)
    } else {
        CommandModel::Help
    }
}

/// Splits a command line into its blank-separated tokens.
pub fn tokenize(line: &str) -> (r: Vec<String>)
    ensures
        r.deep_view() == split_of(trim_of(line@), ' '),
        r@.len() >= 1,
{
    let t = trim(line);
    let r = split(t, ' ');
    proof {
        lemma_split_of_nonempty(trim_of(line@), ' ');
    }
    r
}

/// Decodes one command line, per [`spec_parse_command`].
pub fn parse_command(line: &str) -> (r: Command)
    ensures
        r@ == spec_parse_command(line@),
{
    let toks = tokenize(line);
    let ghost tv = toks.deep_view();
    proof {
        assert(tv[0] == toks@[0]@);
    }
    let cmd = toks[0].as_str();
    if cmd.is_empty() {
        Command::Nothing
    } else if str_eq(cmd, "#") || str_eq(cmd, "//") {
        Command::Comment
    } else if str_eq(cmd, "exit") {
        Command::Exit
    } else if str_eq(cmd, "list") {
        Command::List
    } else if str_eq(cmd, "load") {
        if toks.len() < 2 {
            Command::LoadUsage
        } else {
            let mut files: Vec<String> = Vec::new();
            let mut j: usize = 1;
            while j < toks.len()
                invariant
                    1 <= j <= toks@.len(),
                    tv == toks.deep_view(),
                    files.deep_view() =~= tv.subrange(1, j as int),
                decreases toks@.len() - j,
            {
                files.push(toks[j].clone());
                proof {
                    assert(files.deep_view() =~= tv.subrange(1, j as int).push(tv[j as int]));
                    assert(tv.subrange(1, j as int).push(tv[j as int]) =~= tv.subrange(
                        1,
                        j as int + 1,
                    ));
                }
                j = j + 1;
            }
            proof {
                assert(tv.subrange(1, tv.len() as int) =~= tv.skip(1));
            }
            Command::Load(files)
        }
    } else if str_eq(cmd, "show") {
        if toks.len() != 3 {
            Command::ShowUsage
        } else {
            proof {
                assert(tv[2] == toks@[2]@);
                assert(tv[1] == toks@[1]@);
            }
            match parse_u32(toks[2].as_str()) {
                Some(n) => Command::Show(toks[1].clone(), n),
                None => Command::ShowBadNumber(toks[2].clone()),
            }
        }
    } else if str_eq(cmd, "tev") {
        if toks.len() != 3 {
            Command::TevUsage
        } else {
            proof {
                assert(tv[2] == toks@[2]@);
                assert(tv[1] == toks@[1]@);
            }
            match parse_u32(toks[2].as_str()) {
                Some(n) => Command::Tev(toks[1].clone(), n),
                None => Command::TevBadNumber(toks[2].clone()),
            }
        }
    } else if str_eq(cmd, "combine") {
        if toks.len() != 3 {
            Command::CombineUsage
        } else {
            proof {
                assert(tv[2] == toks@[2]@);
                assert(tv[1] == toks@[1]@);
            }
            match parse_u32(toks[2].as_str()) {
                Some(n) => Command::Combine(toks[1].clone(), n),
                None => Command::CombineBadNumber(toks[2].clone()),
            }
        }
    } else if str_eq(cmd, "output") {
        match parse_options(&toks, 1) {
            Err(e) => Command::OutputBadOptions(e),
            Ok((o, next)) => {
                if o.help {
                    Command::OutputHelp
                } else if toks.len() <= next {
                    Command::OutputMissingArgs
                } else if toks.len() - 1 == next {
                    proof {
                        assert(tv[next as int] == toks@[next as int]@);
                    }
                    Command::OutputMulti(o, toks[next].clone())
                } else if toks.len() - 2 == next {
                    proof {
                        assert(tv[next as int] == toks@[next as int]@);
                        assert(tv[next as int + 1] == toks@[next as int + 1]@);
                    }
                    Command::OutputEntry(o, toks[next].clone(), toks[next + 1].clone(), 0)
                } else if toks.len() - 3 == next {
                    proof {
                        assert(tv[next as int] == toks@[next as int]@);
                        assert(tv[next as int + 1] == toks@[next as int + 1]@);
                        assert(tv[next as int + 2] == toks@[next as int + 2]@);
                    }
                    match parse_fixed(toks[next + 2].as_str()) {
                        Some(h) => Command::OutputEntry(
                            o,
                            toks[next].clone(),
                            toks[next + 1].clone(),
                            h,
                        ),
                        None => Command::OutputBadHue(toks[next + 2].clone()),
                    }
                } else {
                    Command::OutputTooMany
                }
            },
        }
    } else {
        Command::Help
    }
}

/// One line of the `combine` sub-prompt.
#[derive(Debug)]
pub enum EntryLine {
    /// A blank line: the list is complete.
    End,
    /// A `label seq` pair.
    Key(String, u32),
    /// Not two tokens: print the usage text.
    Usage,
    /// A sequence that is not a number; carries the token.
    BadNumber(String),
}

/// The mathematical image of a combine sub-prompt line.
pub ghost enum EntryLineModel {
    End,
    Key(Seq<char>, u32),
    Usage,
    BadNumber(Seq<char>),
}

impl View for EntryLine {
    type V = EntryLineModel;

    open spec fn view(&self) -> EntryLineModel {
        match self {
            EntryLine::End => EntryLineModel::End,
            EntryLine::Key(l, n) => EntryLineModel::Key(l@, *n),
            EntryLine::Usage => EntryLineModel::Usage,
            EntryLine::BadNumber(t) => EntryLineModel::BadNumber(t@),
        }
    }
}

/// The reading of one `combine` sub-prompt line.
pub open spec fn spec_parse_combine_entry_line(line: Seq<char>) -> EntryLineModel {
    let toks = split_of(trim_of(line), ' ');
    if toks.len() == 1 && toks[0].len() == 0 {
        EntryLineModel::End
    } else if toks.len() != 2 {
        EntryLineModel::Usage
    } else {
        match u32_of(toks[1]) {
            Option::None => EntryLineModel::BadNumber(toks[1]),
            Option::Some(n) => EntryLineModel::Key(toks[0], n as u32),
        }
    }
}

/// Decodes one `combine` sub-prompt line, per
/// [`spec_parse_combine_entry_line`].
pub fn parse_combine_entry_line(line: &str) -> (r: EntryLine)
    ensures
        r@ == spec_parse_combine_entry_line(line@),
{
    let toks = tokenize(line);
    let ghost tv = toks.deep_view();
    proof {
        assert(tv[0] == toks@[0]@);
    }
    if toks.len() == 1 && toks[0].as_str().is_empty() {
        EntryLine::End
    } else if toks.len() != 2 {
        EntryLine::Usage
    } else {
        proof {
            assert(tv[1] == toks@[1]@);
        }
        match parse_u32(toks[1].as_str()) {
            Some(n) => EntryLine::Key(toks[0].clone(), n),
            None => EntryLine::BadNumber(toks[1].clone()),
        }
    }
}

/// One line of the multi-entry `output` sub-prompt.
#[derive(Debug)]
pub enum OutputEntryLine {
    /// A blank line: the list is complete.
    End,
    /// A `label seq` pair with its hue choice; `None` asks for an
    /// auto-assigned hue (no hue given, or one outside 0–360).
    KeyHue(String, u32, Option<i64>),
    /// Not two or three tokens: print the usage text.
    Usage,
    /// A sequence that is not a number; carries the token.
    BadNumber(String),
    /// A hue that is not a number; carries the token.
    BadHue(String),
}

/// The mathematical image of an output sub-prompt line.
pub ghost enum OutputEntryLineModel {
    End,
    KeyHue(Seq<char>, u32, Option<i64>),
    Usage,
    BadNumber(Seq<char>),
    BadHue(Seq<char>),
}

impl View for OutputEntryLine {
    type V = OutputEntryLineModel;

    open spec fn view(&self) -> OutputEntryLineModel {
        match self {
            OutputEntryLine::End => OutputEntryLineModel::End,
            OutputEntryLine::KeyHue(l, n, h) => OutputEntryLineModel::KeyHue(l@, *n, *h),
            OutputEntryLine::Usage => OutputEntryLineModel::Usage,
            OutputEntryLine::BadNumber(t) => OutputEntryLineModel::BadNumber(t@),
            OutputEntryLine::BadHue(t) => OutputEntryLineModel::BadHue(t@),
        }
    }
}

/// The reading of one multi-entry `output` sub-prompt line: an
/// explicit hue must lie within 0–360 degrees; one outside that range
/// asks for auto-assignment instead.
pub open spec fn spec_parse_output_entry_line(line: Seq<char>) -> OutputEntryLineModel {
    let toks = split_of(trim_of(line), ' ');
    if toks.len() == 1 && toks[0].len() == 0 {
        OutputEntryLineModel::End
    } else if toks.len() != 2 && toks.len() != 3 {
        OutputEntryLineModel::Usage
    } else {
        match u32_of(toks[1]) {
            Option::None => OutputEntryLineModel::BadNumber(toks[1]),
            Option::Some(n) => {
                if toks.len() == 3 {
                    match fixed_of(toks[2]) {
                        Option::None => OutputEntryLineModel::BadHue(toks[2]),
                        Option::Some(h) => OutputEntryLineModel::KeyHue(
                            toks[0],
                            n as u32,
                            if 0 <= h <= 360_000_000 {
                                Some(h as i64)
                            } else {
                                None
                            },
                        ),
                    }
                } else {
                    OutputEntryLineModel::KeyHue(toks[0], n as u32, None)
                }
            },
        }
    }
}

/// Decodes one multi-entry `output` sub-prompt line, per
/// [`spec_parse_output_entry_line`].
pub fn parse_output_entry_line(line: &str) -> (r: OutputEntryLine)
    ensures
        r@ == spec_parse_output_entry_line(line@),
{
    let toks = tokenize(line);
    let ghost tv = toks.deep_view();
    proof {
        assert(tv[0] == toks@[0]@);
    }
    if toks.len() == 1 && toks[0].as_str().is_empty() {
        OutputEntryLine::End
    } else if toks.len() != 2 && toks.len() != 3 {
        OutputEntryLine::Usage
    } else {
        proof {
            assert(tv[1] == toks@[1]@);
        }
        match parse_u32(toks[1].as_str()) {
            None => OutputEntryLine::BadNumber(toks[1].clone()),
            Some(n) => {
                if toks.len() == 3 {
                    proof {
                        assert(tv[2] == toks@[2]@);
                    }
                    match parse_fixed(toks[2].as_str()) {
                        None => OutputEntryLine::BadHue(toks[2].clone()),
                        Some(h) => {
                            let hue: Option<i64> = if 0 <= h && h <= 360_000_000 {
                                Some(h)
                            } else {
                                None
                            };
                            OutputEntryLine::KeyHue(toks[0].clone(), n, hue)
                        },
                    }
                } else {
                    OutputEntryLine::KeyHue(toks[0].clone(), n, None)
                }
            },
        }
    }
}

} // verus!
