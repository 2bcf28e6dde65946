//! The scan-list format parser.
//!
//! The format is line oriented: blank lines separate blocks; a block
//! is a header line holding a single positive count `N`, followed by
//! exactly `N` lines of `angle,range` (two comma-separated fixed-point
//! fields, each optionally surrounded by blanks).  Every completed
//! block becomes one catalog entry keyed `(label, b)` where `b` counts
//! the blocks completed during the call, starting at zero.
//!
//! The parser is an explicit state machine whose state persists across
//! calls on the same instance, so one block may span sequential reads;
//! [`PtflParser::renew`] resets it.  The whole behaviour of a call is
//! the mathematical function [`run`] over the file's lines.

use vstd::prelude::*;
use crate::catalog::{spec_insert, kview, Catalog, EntryKey, Sample};
use crate::fixed::{count_of, fixed_of, parse_count, parse_fixed};
use crate::text::{lines_of, split, split_lines, split_of, trim, trim_of, lemma_lines_of_len};

verus! {

/// The parser's state: waiting for a header, or inside a block with
/// that many sample lines still owed.
#[derive(Clone, Copy, Debug, PartialEq, Eq, Structural)]
pub enum ParsingState {
    Idle,
    DuringReg(u64),
}

/// A mid-block count is never zero.
pub open spec fn state_wf(s: ParsingState) -> bool {
    match s {
        ParsingState::Idle => true,
        ParsingState::DuringReg(n) => n >= 1,
    }
}

/// Why a parse call failed; each variant carries the offending text
/// or count.
#[derive(Debug)]
pub enum FormatError {
    /// A header line that is not a positive count; carries the line.
    HeaderNotNumber(String),
    /// A header line holding zero.
    HeaderZero,
    /// A sample line without exactly two comma-separated fields;
    /// carries the field count.
    WrongFields(usize),
    /// A sample field that is not a fixed-point number; carries the
    /// trimmed field.
    BadNumber(String),
}

/// The mathematical image of a parse error.
pub ghost enum ErrKind {
    HeaderNotNumber(Seq<char>),
    HeaderZero,
    WrongFields(int),
    BadNumber(Seq<char>),
}

impl View for FormatError {
    type V = ErrKind;

    open spec fn view(&self) -> ErrKind {
        match self {
            FormatError::HeaderNotNumber(s) => ErrKind::HeaderNotNumber(s@),
            FormatError::HeaderZero => ErrKind::HeaderZero,
            FormatError::WrongFields(n) => ErrKind::WrongFields(*n as int),
            FormatError::BadNumber(s) => ErrKind::BadNumber(s@),
        }
    }
}

/// What one line inside a block denotes.
pub ghost enum LineClass {
    /// A valid `angle,range` pair.
    Good(Sample),
    /// Not exactly two comma-separated fields; carries the count.
    WrongFields(int),
    /// A field that is not a number; carries the trimmed field.
    BadNumber(Seq<char>),
}

/// Classifies a line read while inside a block.
pub open spec fn classify_sample_line(line: Seq<char>) -> LineClass {
    let fields = split_of(line, ',');
    if fields.len() != 2 {
        LineClass::WrongFields(fields.len() as int)
    } else {
        let a = trim_of(fields[0]);
        let b = trim_of(fields[1]);
        match fixed_of(a) {
            Option::None => LineClass::BadNumber(a),
            Option::Some(av) => match fixed_of(b) {
                Option::None => LineClass::BadNumber(b),
                Option::Some(bv) => LineClass::Good(((av as i64), (bv as i64))),
            },
        }
    }
}

/// Everything one parse call does, as a value: the blocks completed
/// in order, the parser state afterwards, and the error that stopped
/// it, if one did.  On an error the state field repeats the state at
/// the offending line; the parser's contract promises nothing about
/// its state in that case.
pub ghost struct RunOut {
    pub blocks: Seq<Seq<Sample>>,
    pub state: ParsingState,
    pub err: Option<ErrKind>,
}

/// The parser's behaviour over `lines`, starting in `st` with the
/// current block buffer `buf`.
pub open spec fn run(st: ParsingState, buf: Seq<Sample>, lines: Seq<Seq<char>>) -> RunOut
    decreases lines.len(),
{
    if lines.len() == 0 {
        RunOut { blocks: Seq::empty(), state: st, err: None }
    } else {
        let line = lines[0];
        let rest = lines.drop_first();
        match st {
            ParsingState::Idle => {
                if line.len() == 0 {
                    run(st, buf, rest)
                } else {
                    match count_of(line) {
                        Option::None => RunOut {
                            blocks: Seq::empty(),
                            state: st,
                            err: Some(ErrKind::HeaderNotNumber(line)),
                        },
                        Option::Some(n) => {
                            if n == 0 {
                                RunOut {
                                    blocks: Seq::empty(),
                                    state: st,
                                    err: Some(ErrKind::HeaderZero),
                                }
                            } else {
                                run(ParsingState::DuringReg(n as u64), Seq::empty(), rest)
                            }
                        },
                    }
                }
            },
            ParsingState::DuringReg(rem) => {
                match classify_sample_line(line) {
                    LineClass::WrongFields(c) => RunOut {
                        blocks: Seq::empty(),
                        state: st,
                        err: Some(ErrKind::WrongFields(c)),
                    },
                    LineClass::BadNumber(t) => RunOut {
                        blocks: Seq::empty(),
                        state: st,
                        err: Some(ErrKind::BadNumber(t)),
                    },
                    LineClass::Good(s) => {
                        if rem == 1 {
                            let out = run(ParsingState::Idle, Seq::empty(), rest);
                            RunOut {
                                blocks: seq![buf.push(s)] + out.blocks,
                                state: out.state,
                                err: out.err,
                            }
                        } else {
                            run(
                                ParsingState::DuringReg((rem - 1) as u64),
                                buf.push(s),
                                rest,
                            )
                        }
                    },
                }
            },
        }
    }
}

/// The catalog after inserting `blocks` in order under keys
/// `(label, 0)`, `(label, 1)`, and so on.
pub open spec fn insert_blocks(
    es: Seq<((Seq<char>, u32), Seq<Sample>)>,
    label: Seq<char>,
    blocks: Seq<Seq<Sample>>,
) -> Seq<((Seq<char>, u32), Seq<Sample>)>
    decreases blocks.len(),
{
    if blocks.len() == 0 {
        es
    } else {
        spec_insert(
            insert_blocks(es, label, blocks.drop_last()),
            (label, (blocks.len() - 1) as u32),
            blocks.last(),
        )
    }
}

/// The sample a block line carries (meaningful only for lines that
/// classify as [`LineClass::Good`]).
pub open spec fn line_sample(line: Seq<char>) -> Sample {
    match classify_sample_line(line) {
        LineClass::Good(s) => s,
        LineClass::WrongFields(_) => (0i64, 0i64),
        LineClass::BadNumber(_) => (0i64, 0i64),
    }
}

/// The blocks of a well-formed file: between blank lines, each block
/// is a positive header count followed by exactly that many sample
/// lines.  `None` when the file does not have this shape.
pub open spec fn wf_blocks(lines: Seq<Seq<char>>) -> Option<Seq<Seq<Sample>>>
    decreases lines.len(),
{
    if lines.len() == 0 {
        Some(Seq::empty())
    } else if lines[0].len() == 0 {
        wf_blocks(lines.drop_first())
    } else {
        match count_of(lines[0]) {
            Option::None => None,
            Option::Some(n) => {
                if 1 <= n <= lines.len() - 1 && (forall|j: int|
                    1 <= j <= n ==> classify_sample_line(#[trigger] lines[j]) is Good) {
                    let block = Seq::new(n as nat, |j: int| line_sample(lines[j + 1]));
                    match wf_blocks(lines.skip(n + 1)) {
                        Option::None => None,
                        Option::Some(bs) => Some(seq![block] + bs),
                    }
                } else {
                    None
                }
            },
        }
    }
}

/// Consuming a block: from inside a block with `k` sample lines ahead
/// of the remaining count, the parser collects exactly those samples
/// and continues idle on the rest.
proof fn lemma_run_block(lines: Seq<Seq<char>>, k: u64, buf: Seq<Sample>)
    requires
        1 <= k <= lines.len(),
        forall|j: int| 0 <= j < k ==> classify_sample_line(#[trigger] lines[j]) is Good,
    ensures
        run(ParsingState::DuringReg(k), buf, lines) == (RunOut {
            blocks: seq![buf + Seq::new(k as nat, |j: int| line_sample(lines[j]))] + run(
                ParsingState::Idle,
                Seq::empty(),
                lines.skip(k as int),
            ).blocks,
            state: run(ParsingState::Idle, Seq::empty(), lines.skip(k as int)).state,
            err: run(ParsingState::Idle, Seq::empty(), lines.skip(k as int)).err,
        }),
    decreases k,
{
    let s = line_sample(lines[0]);
    let rest = lines.drop_first();
    if k == 1 {
        assert(lines.skip(1) =~= rest);
        assert(buf + Seq::new(1, |j: int| line_sample(lines[j])) =~= buf.push(s));
    } else {
        assert forall|j: int| 0 <= j < k - 1 implies classify_sample_line(
            #[trigger] rest[j],
        ) is Good by {
            assert(rest[j] == lines[j + 1]);
        }
        lemma_run_block(rest, (k - 1) as u64, buf.push(s));
        assert(rest.skip(k - 1) =~= lines.skip(k as int));
        assert(buf.push(s) + Seq::new((k - 1) as nat, |j: int| line_sample(rest[j])) =~= buf
            + Seq::new(k as nat, |j: int| line_sample(lines[j])));
    }
}

/// A well-formed file parses from the idle state without error into
/// exactly its blocks: one entry per block, each holding exactly the
/// count of samples its header declared.
pub proof fn lemma_parse_well_formed(lines: Seq<Seq<char>>, bs: Seq<Seq<Sample>>)
    requires
        wf_blocks(lines) == Some(bs),
    ensures
        run(ParsingState::Idle, Seq::empty(), lines) == (RunOut {
            blocks: bs,
            state: ParsingState::Idle,
            err: None,
        }),
    decreases lines.len(),
{
    if lines.len() == 0 {
        assert(bs =~= Seq::<Seq<Sample>>::empty());
    } else if lines[0].len() == 0 {
        lemma_parse_well_formed(lines.drop_first(), bs);
    } else {
        let n = count_of(lines[0])->Some_0;
        let rest = lines.drop_first();
        let block = Seq::new(n as nat, |j: int| line_sample(lines[j + 1]));
        let tail = wf_blocks(lines.skip(n + 1))->Some_0;
        assert forall|j: int| 0 <= j < n implies classify_sample_line(
            #[trigger] rest[j],
        ) is Good by {
            assert(rest[j] == lines[j + 1]);
        }
        lemma_run_block(rest, n as u64, Seq::empty());
        assert(rest.skip(n as int) =~= lines.skip(n + 1));
        lemma_parse_well_formed(lines.skip(n + 1), tail);
        assert(Seq::empty() + Seq::new(n as nat, |j: int| line_sample(rest[j])) =~= block);
        assert(seq![block] + tail =~= bs);
    }
}

/// Part-way through a block, a line that is not a sample line stops
/// the parse with an error and no entry; lines simply running out
/// leave the parser mid-block, again with no entry.  Either way a
/// block whose declared count is not met never becomes an entry.
proof fn lemma_run_partial(lines: Seq<Seq<char>>, rem: u64, buf: Seq<Sample>, k: int)
    requires
        0 <= k <= lines.len(),
        k < rem,
        forall|j: int| 0 <= j < k ==> classify_sample_line(#[trigger] lines[j]) is Good,
        k == lines.len() || !(classify_sample_line(lines[k]) is Good),
    ensures
        run(ParsingState::DuringReg(rem), buf, lines).blocks == Seq::<Seq<Sample>>::empty(),
        k == lines.len() ==> run(ParsingState::DuringReg(rem), buf, lines).err is None && run(
            ParsingState::DuringReg(rem),
            buf,
            lines,
        ).state == ParsingState::DuringReg((rem - k) as u64),
        k < lines.len() ==> run(ParsingState::DuringReg(rem), buf, lines).err is Some,
    decreases k,
{
    if k == 0 {
    } else {
        let rest = lines.drop_first();
        assert forall|j: int| 0 <= j < k - 1 implies classify_sample_line(
            #[trigger] rest[j],
        ) is Good by {
            assert(rest[j] == lines[j + 1]);
        }
        assert(k - 1 == rest.len() || rest[k - 1] == lines[k]);
        lemma_run_partial(rest, (rem - 1) as u64, buf.push(line_sample(lines[0])), k - 1);
    }
}

/// The block-count law for ill-formed files: a block whose header
/// declares more sample lines than follow it yields a format error at
/// the first non-sample line, and no entry at all is emitted for the
/// file; if the file instead simply ends mid-block, no error is
/// raised but the half-read block is still not an entry (the parser
/// stays mid-block until renewed).
pub proof fn lemma_short_block(lines: Seq<Seq<char>>, n: u64, k: int)
    requires
        lines.len() > 0,
        count_of(lines[0]) == Some(n as int),
        n >= 1,
        0 <= k < n,
        k + 1 <= lines.len(),
        forall|j: int| 1 <= j <= k ==> classify_sample_line(#[trigger] lines[j]) is Good,
        k + 1 == lines.len() || !(classify_sample_line(lines[k + 1]) is Good),
    ensures
        run(ParsingState::Idle, Seq::empty(), lines).blocks == Seq::<Seq<Sample>>::empty(),
        k + 1 < lines.len() ==> run(ParsingState::Idle, Seq::empty(), lines).err is Some,
        k + 1 == lines.len() ==> run(ParsingState::Idle, Seq::empty(), lines).err is None && run(
            ParsingState::Idle,
            Seq::empty(),
            lines,
        ).state == ParsingState::DuringReg((n - k) as u64),
{
    let rest = lines.drop_first();
    assert forall|j: int| 0 <= j < k implies classify_sample_line(#[trigger] rest[j]) is Good by {
        assert(rest[j] == lines[j + 1]);
    }
    assert(k == rest.len() || rest[k] == lines[k + 1]);
    lemma_run_partial(rest, n, Seq::empty(), k);
}

/// A sample line never reads as a block header: its comma is not a
/// digit.
pub proof fn lemma_sample_line_is_no_header(l: Seq<char>)
    requires
        classify_sample_line(l) is Good,
    ensures
        count_of(l) is None,
        l.len() > 0,
{
    crate::text::lemma_char_index_found(l, ',');
    let p = crate::text::char_index(l, ',');
    // exactly two fields means the line holds a comma
    assert(p < l.len());
    assert(l[p] == ',');
    assert(!crate::fixed::is_digit(l[p]));
    let body = if l.len() > 0 && l[0] == '+' {
        l.drop_first()
    } else {
        l
    };
    if l[0] == '+' {
        assert(body[p - 1] == l[p]);
        assert(!crate::fixed::all_digits(body));
    } else {
        assert(!crate::fixed::all_digits(body));
    }
}

/// The other face of the block-count law: a block followed by more
/// data lines than its header declared stops the parse at the first
/// surplus line, which is read where a header is expected and is no
/// count; again no malformed entry is emitted.
pub proof fn lemma_surplus_sample_line(lines: Seq<Seq<char>>)
    requires
        lines.len() > 0,
        classify_sample_line(lines[0]) is Good,
    ensures
        run(ParsingState::Idle, Seq::empty(), lines).err == Some(
            ErrKind::HeaderNotNumber(lines[0]),
        ),
        run(ParsingState::Idle, Seq::empty(), lines).blocks == Seq::<Seq<Sample>>::empty(),
{
    lemma_sample_line_is_no_header(lines[0]);
}

/// The scan-list parser; see the module description for the format.
pub struct PtflParser {
    state: ParsingState,
}

impl View for PtflParser {
    type V = ParsingState;

    closed spec fn view(&self) -> ParsingState {
        self.state
    }
}

impl PtflParser {
    /// The parser's invariant.
    pub open spec fn wf(&self) -> bool {
        state_wf(self@)
    }

    /// A parser waiting for a header line.
    pub fn new() -> (p: PtflParser)
        ensures
            p@ == ParsingState::Idle,
            p.wf(),
    {
        PtflParser { state: ParsingState::Idle }
    }

    /// Resets the parser to wait for a header line, discarding a
    /// block left half-read by an earlier failed call.
    pub fn renew(&mut self)
        ensures
            final(self)@ == ParsingState::Idle,
            final(self).wf(),
    {
        self.state = ParsingState::Idle;
    }

    /// Decodes `content` and inserts every completed block into
    /// `target` keyed `(label, b)`, `b` counting completed blocks of
    /// this call from zero.  Returns that count, or the first error;
    /// blocks completed before an error stay inserted, and after an
    /// error the parser state is unspecified until [`renew`].
    ///
    /// The whole behaviour is [`run`] over [`lines_of`] the content,
    /// started from the state the previous call left.
    ///
    /// [`renew`]: PtflParser::renew
    pub fn parse(&mut self, label: &str, content: &str, target: &mut Catalog) -> (r: Result<
        u32,
        FormatError,
    >)
        requires
            old(self).wf(),
            old(target).wf(),
            content@.len() < 0xFFFF_FFFF,
        ensures
            final(self).wf(),
            final(target).wf(),
            ({
                let out = run(old(self)@, Seq::empty(), lines_of(content@));
                &&& final(target)@ == insert_blocks(old(target)@, label@, out.blocks)
                &&& match r {
                    Ok(n) => out.err is None && n == out.blocks.len() && final(self)@ == out.state,
                    Err(e) => out.err == Some(e@),
                }
            }),
    {
        let lines = split_lines(content);
        let ghost lv = lines.deep_view();
        let ghost full = run(old(self)@, Seq::empty(), lines_of(content@));
        let ghost es0 = old(target)@;
        proof {
            lemma_lines_of_len(content@);
        }
        let mut st = self.state;
        let mut buf: Vec<Sample> = Vec::new();
        let mut count: u32 = 0;
        let mut error: Option<FormatError> = None;
        let ghost mut done: Seq<Seq<Sample>> = Seq::empty();
        let mut i: usize = 0;
        proof {
            assert(lv.skip(0) =~= lv);
            assert(done + full.blocks =~= full.blocks);
        }
        while i < lines.len()
            invariant_except_break
                error is None,
            invariant
                0 <= i <= lines@.len(),
                lv == lines.deep_view(),
                lv.len() == lines@.len() <= content@.len() + 1,
                content@.len() < 0xFFFF_FFFF,
                state_wf(st),
                target.wf(),
                count == done.len(),
                done.len() <= i,
                target@ == insert_blocks(es0, label@, done),
                full.blocks == done + run(st, buf@, lv.skip(i as int)).blocks || error is Some,
                match error {
                    Some(e) => full.err == Some(e@) && full.blocks == done,
                    None => {
                        let rem = run(st, buf@, lv.skip(i as int));
                        &&& full.blocks == done + rem.blocks
                        &&& full.err == rem.err
                        &&& full.state == rem.state
                    },
                },
            ensures
                error is None ==> i == lines@.len(),
            decreases lines@.len() - i,
        {
            let ghost rem_in = run(st, buf@, lv.skip(i as int));
            let line = &lines[i];
            proof {
                assert(lv.skip(i as int)[0] == lv[i as int]);
                assert(lv.skip(i as int).drop_first() =~= lv.skip(i as int + 1));
                assert(line@ == lv[i as int]);
                assert(done + Seq::<Seq<Sample>>::empty() =~= done);
            }
            match st {
                ParsingState::Idle => {
                    if line.as_str().is_empty() {
                        // blank line between blocks
                    } else {
                        match parse_count(line.as_str()) {
                            Some(n) => {
                                if n == 0 {
                                    proof {
                                        assert(count_of(line@) == Some(0int));
                                        assert(rem_in.err == Some(ErrKind::HeaderZero));
                                        assert(full.err == Some(ErrKind::HeaderZero));
                                        assert(full.blocks == done);
                                    }
                                    error = Some(FormatError::HeaderZero);
                                    break ;
                                } else {
                                    st = ParsingState::DuringReg(n);
                                    buf = Vec::new();
                                }
                            },
                            None => {
                                proof {
                                    assert(rem_in.err == Some(ErrKind::HeaderNotNumber(line@)));
                                    assert(full.blocks == done);
                                }
                                error = Some(FormatError::HeaderNotNumber(line.clone()));
                                break ;
                            },
                        }
                    }
                },
                ParsingState::DuringReg(rem) => {
                    let fields = split(line.as_str(), ',');
                    proof {
                        assert(fields.deep_view() == split_of(line@, ','));
                        if fields.deep_view().len() == 2 {
                            assert(fields.deep_view()[0] == fields@[0]@);
                            assert(fields.deep_view()[1] == fields@[1]@);
                        }
                    }
                    if fields.len() != 2 {
                        proof {
                            assert(classify_sample_line(line@) == LineClass::WrongFields(
                                fields.deep_view().len() as int,
                            ));
                            assert(rem_in.err == Some(ErrKind::WrongFields(fields@.len() as int)));
                            assert(full.blocks == done);
                        }
                        error = Some(FormatError::WrongFields(fields.len()));
                        break ;
                    }
                    let t0 = trim(fields[0].as_str());
                    let a0 = parse_fixed(t0);
                    let t1 = trim(fields[1].as_str());
                    let a1 = parse_fixed(t1);
                    match (a0, a1) {
                        (Some(angle), Some(range)) => {
                            buf.push((angle, range));
                            if rem == 1 {
                                // block complete: commit it under the next key
                                let key: EntryKey = (label.to_owned(), count);
                                let ghost block = buf@;
                                target.insert(key, buf);
                                buf = Vec::new();
                                proof {
                                    let done2 = done.push(block);
                                    assert(done2.drop_last() =~= done);
                                    assert(insert_blocks(es0, label@, done2) == spec_insert(
                                        insert_blocks(es0, label@, done),
                                        (label@, done.len() as u32),
                                        block,
                                    ));
                                    assert(kview(key) == (label@, done.len() as u32));
                                    let out = run(
                                        ParsingState::Idle,
                                        Seq::empty(),
                                        lv.skip(i as int + 1),
                                    );
                                    assert(rem_in.blocks == seq![block] + out.blocks);
                                    assert(done + (seq![block] + out.blocks) =~= done2 + out.blocks);
                                    done = done2;
                                }
                                count = count + 1;
                                st = ParsingState::Idle;
                            } else {
                                st = ParsingState::DuringReg(rem - 1);
                            }
                        },
                        (None, _) => {
                            proof {
                                assert(classify_sample_line(line@) == LineClass::BadNumber(t0@));
                                assert(rem_in.err == Some(ErrKind::BadNumber(t0@)));
                                assert(full.blocks == done);
                            }
                            error = Some(FormatError::BadNumber(t0.to_owned()));
                            break ;
                        },
                        (_, None) => {
                            proof {
                                assert(classify_sample_line(line@) == LineClass::BadNumber(t1@));
                                assert(rem_in.err == Some(ErrKind::BadNumber(t1@)));
                                assert(full.blocks == done);
                            }
                            error = Some(FormatError::BadNumber(t1.to_owned()));
                            break ;
                        },
                    }
                },
            }
            i = i + 1;
        }
        self.state = st;
        match error {
            Some(e) => Err(e),
            None => {
                proof {
                    assert(lv.skip(i as int) =~= Seq::<Seq<char>>::empty());
                    assert(full.blocks =~= done);
                }
                Ok(count)
            },
        }
    }
}

} // verus!
