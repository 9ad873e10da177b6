//! Field and line decoders: the class-spec decoder, the shared
//! length-prefixed state-block decoder, the line decoder with the root-id
//! filter, and the stream decoder over a whole input.
//!
//! Every exec decoder is proved equal to a spec-level model
//! (`class_name_spec`, `state_block_spec`, `line_spec`, ...), so decoding is
//! a function of the input text alone.
use vstd::prelude::*;

use crate::ParsedLineError;
use crate::primitives::copy_range;
use crate::primitives::dec_digits;
use crate::primitives::digit_run_end;
use crate::primitives::digits_val;
use crate::primitives::is_digit;
use crate::primitives::lemma_dec_digits;
use crate::primitives::lemma_run_end_unique;
use crate::primitives::push_chars;
use crate::primitives::push_dec;
use crate::primitives::number_spec;
use crate::primitives::parse_number_i32;
use crate::primitives::parse_number_usize;
use crate::primitives::pop_separator;
use crate::primitives::separator_spec;
use crate::primitives::take_n_characters;
use crate::primitives::take_until;
use crate::primitives::take_until_whitespace;
use crate::primitives::token_end;
use crate::primitives::until_end;

verus! {

/// The views of a sequence of character vectors.
pub open spec fn seq_views(v: Seq<Vec<char>>) -> Seq<Seq<char>> {
    Seq::new(v.len(), |i: int| v[i]@)
}

/// Decoded class-spec token: the class name, with the parent id and parent
/// class name when the token has the hierarchical `Parent:Id:Class` form.
#[derive(Debug, PartialEq, Eq)]
pub struct ParsedClassName {
    pub class_name: Vec<char>,
    pub parent_id: Option<i32>,
    pub parent_class_name: Option<Vec<char>>,
}

/// Mathematical model of a decoded class-spec.
pub struct ParsedClassNameV {
    pub class_name: Seq<char>,
    pub parent_id: Option<int>,
    pub parent_class_name: Option<Seq<char>>,
}

impl View for ParsedClassName {
    type V = ParsedClassNameV;

    open spec fn view(&self) -> ParsedClassNameV {
        ParsedClassNameV {
            class_name: self.class_name@,
            parent_id: match self.parent_id {
                Some(v) => Some(v as int),
                None => None,
            },
            parent_class_name: match self.parent_class_name {
                Some(p) => Some(p@),
                None => None,
            },
        }
    }
}

/// What `parse_class_name` returns. The token is the maximal non-whitespace
/// run at `i`. Without a colon the whole token is the class name; with one,
/// the text before the first colon is the parent class name, then exactly
/// one `:`, a decimal parent id, exactly one `:`, and the rest of the token
/// is the class name.
pub open spec fn class_name_spec(s: Seq<char>, i: int) -> Result<
    (ParsedClassNameV, int),
    ParsedLineError,
> {
    let j = token_end(s, i);
    let p = until_end(s, i, ':');
    if p >= j {
        Ok(
            (
                ParsedClassNameV {
                    class_name: s.subrange(i, j),
                    parent_id: None,
                    parent_class_name: None,
                },
                j,
            ),
        )
    } else {
        match separator_spec(s, p, ':') {
            Err(e) => Err(e),
            Ok(q0) => match number_spec(s, q0, i32::MAX as nat) {
                Err(e) => Err(e),
                Ok((v, q1)) => match separator_spec(s, q1, ':') {
                    Err(e) => Err(e),
                    Ok(q2) => Ok(
                        (
                            ParsedClassNameV {
                                class_name: s.subrange(q2, token_end(s, q2)),
                                parent_id: Some(v as int),
                                parent_class_name: Some(s.subrange(i, p)),
                            },
                            j,
                        ),
                    ),
                },
            },
        }
    }
}

/// Decodes the whitespace-delimited class-spec token at position `i` and
/// returns the position just past the token.
pub fn parse_class_name(s: &Vec<char>, i: usize) -> (r: Result<
    (ParsedClassName, usize),
    ParsedLineError,
>)
    requires
        i <= s@.len(),
    ensures
        match r {
            Ok((c, j)) => class_name_spec(s@, i as int) == Ok::<
                (ParsedClassNameV, int),
                ParsedLineError,
            >((c@, j as int)) && i <= j <= s@.len(),
            Err(e) => class_name_spec(s@, i as int) == Err::<
                (ParsedClassNameV, int),
                ParsedLineError,
            >(e),
        },
{
    let j = take_until_whitespace(s, i);
    let p = take_until(s, i, ':');
    if p >= j {
        Ok(
            (
                ParsedClassName {
                    class_name: copy_range(s, i, j),
                    parent_id: None,
                    parent_class_name: None,
                },
                j,
            ),
        )
    } else {
        let q0 = match pop_separator(s, p, ':') {
            Ok(v) => v,
            Err(e) => {
                return Err(e);
            },
        };
        let (pid, q1) = match parse_number_i32(s, q0) {
            Ok(v) => v,
            Err(e) => {
                return Err(e);
            },
        };
        let q2 = match pop_separator(s, q1, ':') {
            Ok(v) => v,
            Err(e) => {
                return Err(e);
            },
        };
        let t = take_until_whitespace(s, q2);
        Ok(
            (
                ParsedClassName {
                    class_name: copy_range(s, q2, t),
                    parent_id: Some(pid),
                    parent_class_name: Some(copy_range(s, i, p)),
                },
                j,
            ),
        )
    }
}

/// What decoding `k` length-prefixed items at position `i` returns: each
/// item is a decimal length, exactly one `:`, then exactly that many raw
/// characters, with no separators between items.
pub open spec fn items_spec(s: Seq<char>, i: int, k: nat) -> Result<
    (Seq<Seq<char>>, int),
    ParsedLineError,
>
    decreases k,
{
    if k == 0 {
        Ok((Seq::empty(), i))
    } else {
        match number_spec(s, i, usize::MAX as nat) {
            Err(e) => Err(e),
            Ok((len, j)) => match separator_spec(s, j, ':') {
                Err(e) => Err(e),
                Ok(j2) => if s.len() - j2 < len {
                    Err(ParsedLineError::NotEnoughCharacters)
                } else {
                    match items_spec(s, j2 + len, (k - 1) as nat) {
                        Err(e) => Err(e),
                        Ok((rest, jf)) => Ok((seq![s.subrange(j2, j2 + len)] + rest, jf)),
                    }
                },
            },
        }
    }
}

/// What `parse_state` returns: a decimal item count, exactly one `:`, then
/// that many length-prefixed items.
pub open spec fn state_block_spec(s: Seq<char>, i: int) -> Result<
    (Seq<Seq<char>>, int),
    ParsedLineError,
> {
    match number_spec(s, i, i32::MAX as nat) {
        Err(e) => Err(e),
        Ok((count, j)) => match separator_spec(s, j, ':') {
            Err(e) => Err(e),
            Ok(j2) => items_spec(s, j2, count),
        },
    }
}

/// Decodes a state block (shared by the `state` and `args` fields) at
/// position `i`: `<count>:<len_1>:<item_1>...<len_count>:<item_count>`.
/// Items are opaque and taken verbatim; they may contain anything.
pub fn parse_state(s: &Vec<char>, i: usize) -> (r: Result<
    (Vec<Vec<char>>, usize),
    ParsedLineError,
>)
    requires
        i <= s@.len(),
    ensures
        match r {
            Ok((items, j)) => state_block_spec(s@, i as int) == Ok::<
                (Seq<Seq<char>>, int),
                ParsedLineError,
            >((seq_views(items@), j as int)) && i <= j <= s@.len(),
            Err(e) => state_block_spec(s@, i as int) == Err::<
                (Seq<Seq<char>>, int),
                ParsedLineError,
            >(e),
        },
{
    let (count, j) = match parse_number_i32(s, i) {
        Ok(v) => v,
        Err(e) => {
            return Err(e);
        },
    };
    let start = match pop_separator(s, j, ':') {
        Ok(v) => v,
        Err(e) => {
            return Err(e);
        },
    };
    let mut items: Vec<Vec<char>> = Vec::new();
    let mut pos: usize = start;
    let mut k: i32 = 0;
    proof {
        assert(state_block_spec(s@, i as int) == items_spec(s@, start as int, count as nat));
        assert(seq_views(items@) =~= Seq::<Seq<char>>::empty());
    }
    while k < count
        invariant
            0 <= k <= count,
            i <= pos <= s@.len(),
            items_spec(s@, pos as int, (count - k) as nat) is Err ==> state_block_spec(
                s@,
                i as int,
            ) == items_spec(s@, pos as int, (count - k) as nat),
            items_spec(s@, pos as int, (count - k) as nat) matches Ok(pr) ==> state_block_spec(
                s@,
                i as int,
            ) == Ok::<(Seq<Seq<char>>, int), ParsedLineError>((seq_views(items@) + pr.0, pr.1)),
        decreases count - k,
    {
        let ghost rem = (count - k) as nat;
        let (len, a) = match parse_number_usize(s, pos) {
            Ok(v) => v,
            Err(e) => {
                proof {
                    assert(items_spec(s@, pos as int, rem) == Err::<
                        (Seq<Seq<char>>, int),
                        ParsedLineError,
                    >(e));
                }
                return Err(e);
            },
        };
        let b = match pop_separator(s, a, ':') {
            Ok(v) => v,
            Err(e) => {
                proof {
                    assert(items_spec(s@, pos as int, rem) == Err::<
                        (Seq<Seq<char>>, int),
                        ParsedLineError,
                    >(e));
                }
                return Err(e);
            },
        };
        let c = match take_n_characters(s, b, len) {
            Ok(v) => v,
            Err(e) => {
                proof {
                    assert(items_spec(s@, pos as int, rem) == Err::<
                        (Seq<Seq<char>>, int),
                        ParsedLineError,
                    >(e));
                }
                return Err(e);
            },
        };
        let item = copy_range(s, b, c);
        let ghost old_items = items@;
        items.push(item);
        proof {
            assert(items_spec(s@, pos as int, rem) == (match items_spec(
                s@,
                c as int,
                (rem - 1) as nat,
            ) {
                Err(e) => Err::<(Seq<Seq<char>>, int), ParsedLineError>(e),
                Ok((rest, jf)) => Ok((seq![s@.subrange(b as int, c as int)] + rest, jf)),
            }));
            assert(seq_views(items@) =~= seq_views(old_items).push(item@));
            if items_spec(s@, c as int, (rem - 1) as nat) is Ok {
                let rest = items_spec(s@, c as int, (rem - 1) as nat)->Ok_0.0;
                assert(seq_views(old_items) + (seq![item@] + rest) =~= seq_views(items@) + rest);
            }
        }
        pos = c;
        k = k + 1;
    }
    proof {
        assert(items_spec(s@, pos as int, 0) == Ok::<(Seq<Seq<char>>, int), ParsedLineError>(
            (Seq::empty(), pos as int),
        ));
        assert(seq_views(items@) + Seq::<Seq<char>>::empty() =~= seq_views(items@));
    }
    Ok((items, pos))
}

/// One decoded trace line. The timestamp is read but intentionally not
/// retained. `parent_id` is present exactly when `parent` is present.
#[derive(Debug, PartialEq, Eq)]
pub struct ParsedLine {
    pub id: i32,
    pub parent_id: Option<i32>,
    pub parent: Option<Vec<char>>,
    pub class_name: Vec<char>,
    pub function_name: Vec<char>,
    pub state: Vec<Vec<char>>,
    pub args: Vec<Vec<char>>,
}

/// Mathematical model of a decoded line.
pub struct ParsedLineV {
    pub id: int,
    pub parent_id: Option<int>,
    pub parent: Option<Seq<char>>,
    pub class_name: Seq<char>,
    pub function_name: Seq<char>,
    pub state: Seq<Seq<char>>,
    pub args: Seq<Seq<char>>,
}

impl ParsedLineV {
    /// The record invariant: a parent id comes with a parent class name.
    pub open spec fn wf(self) -> bool {
        self.parent_id is Some <==> self.parent is Some
    }
}

impl View for ParsedLine {
    type V = ParsedLineV;

    open spec fn view(&self) -> ParsedLineV {
        ParsedLineV {
            id: self.id as int,
            parent_id: match self.parent_id {
                Some(v) => Some(v as int),
                None => None,
            },
            parent: match self.parent {
                Some(ref p) => Some(p@),
                None => None,
            },
            class_name: self.class_name@,
            function_name: self.function_name@,
            state: seq_views(self.state@),
            args: seq_views(self.args@),
        }
    }
}

/// The views of a sequence of records.
pub open spec fn rec_views(v: Seq<ParsedLine>) -> Seq<ParsedLineV> {
    Seq::new(v.len(), |i: int| v[i]@)
}

/// Result of decoding one line: a kept record, the silent "belongs to
/// another root" signal, or a decode error (the line is then dropped).
#[derive(Debug, PartialEq, Eq)]
pub enum LineOutcome {
    Kept(ParsedLine),
    Filtered,
    Failed(ParsedLineError),
}

/// Spec-level counterpart of `LineOutcome`.
pub enum LineOutcomeV {
    Kept(ParsedLineV),
    Filtered,
    Failed(ParsedLineError),
}

/// The views of an optional configured root id.
pub open spec fn opt_id(o: Option<i32>) -> Option<int> {
    match o {
        Some(v) => Some(v as int),
        None => None,
    }
}

/// The root-id filter: with no configured id every record is kept; with one,
/// a record with a parent is kept exactly when its parent id matches, and a
/// parentless record exactly when its own id matches.
pub open spec fn keeps(game_id: Option<int>, parent_id: Option<int>, id: int) -> bool {
    match game_id {
        None => true,
        Some(g) => match parent_id {
            Some(p) => p == g,
            None => id == g,
        },
    }
}

/// What `parse` returns for one line:
/// `<timestamp> <id> <class-spec> <function-name> <state-block> <args-block>`
/// with exactly one space between fields and nothing after the args block.
/// The filter is applied as soon as the class-spec is decoded.
pub open spec fn line_spec(game_id: Option<int>, s: Seq<char>) -> LineOutcomeV {
    match number_spec(s, 0, u64::MAX as nat) {
        Err(e) => LineOutcomeV::Failed(e),
        Ok((_ts, a0)) => match separator_spec(s, a0, ' ') {
            Err(e) => LineOutcomeV::Failed(e),
            Ok(a1) => match number_spec(s, a1, i32::MAX as nat) {
                Err(e) => LineOutcomeV::Failed(e),
                Ok((id, a2)) => match separator_spec(s, a2, ' ') {
                    Err(e) => LineOutcomeV::Failed(e),
                    Ok(a3) => match class_name_spec(s, a3) {
                        Err(e) => LineOutcomeV::Failed(e),
                        Ok((cls, a4)) => match separator_spec(s, a4, ' ') {
                            Err(e) => LineOutcomeV::Failed(e),
                            Ok(a5) => if !keeps(game_id, cls.parent_id, id as int) {
                                LineOutcomeV::Filtered
                            } else {
                                let a6 = token_end(s, a5);
                                match separator_spec(s, a6, ' ') {
                                    Err(e) => LineOutcomeV::Failed(e),
                                    Ok(a7) => match state_block_spec(s, a7) {
                                        Err(e) => LineOutcomeV::Failed(e),
                                        Ok((states, a8)) => match separator_spec(s, a8, ' ') {
                                            Err(e) => LineOutcomeV::Failed(e),
                                            Ok(a9) => match state_block_spec(s, a9) {
                                                Err(e) => LineOutcomeV::Failed(e),
                                                Ok((args, a10)) => if a10 == s.len() {
                                                    LineOutcomeV::Kept(
                                                        ParsedLineV {
                                                            id: id as int,
                                                            parent_id: cls.parent_id,
                                                            parent: cls.parent_class_name,
                                                            class_name: cls.class_name,
                                                            function_name: s.subrange(a5, a6),
                                                            state: states,
                                                            args: args,
                                                        },
                                                    )
                                                } else {
                                                    LineOutcomeV::Failed(
                                                        ParsedLineError::TrailingData,
                                                    )
                                                },
                                            },
                                        },
                                    },
                                }
                            },
                        },
                    },
                },
            },
        },
    }
}

/// Decodes one line and applies the root-id filter. Per-line failures are
/// recoverable: the caller drops the line and goes on with the next one.
pub fn parse(game_id: Option<i32>, line: &Vec<char>) -> (r: LineOutcome)
    ensures
        match r {
            LineOutcome::Kept(rec) => line_spec(opt_id(game_id), line@) == LineOutcomeV::Kept(rec@)
                && rec@.wf(),
            LineOutcome::Filtered => line_spec(opt_id(game_id), line@) == LineOutcomeV::Filtered,
            LineOutcome::Failed(e) => line_spec(opt_id(game_id), line@)
                == LineOutcomeV::Failed(e),
        },
{
    let (_ts, a0) = match crate::primitives::parse_number(line, 0) {
        Ok(v) => v,
        Err(e) => {
            return LineOutcome::Failed(e);
        },
    };
    let a1 = match pop_separator(line, a0, ' ') {
        Ok(v) => v,
        Err(e) => {
            return LineOutcome::Failed(e);
        },
    };
    let (id, a2) = match parse_number_i32(line, a1) {
        Ok(v) => v,
        Err(e) => {
            return LineOutcome::Failed(e);
        },
    };
    let a3 = match pop_separator(line, a2, ' ') {
        Ok(v) => v,
        Err(e) => {
            return LineOutcome::Failed(e);
        },
    };
    let (cls, a4) = match parse_class_name(line, a3) {
        Ok(v) => v,
        Err(e) => {
            return LineOutcome::Failed(e);
        },
    };
    let a5 = match pop_separator(line, a4, ' ') {
        Ok(v) => v,
        Err(e) => {
            return LineOutcome::Failed(e);
        },
    };
    if let Some(g) = game_id {
        let matches_root = match cls.parent_id {
            Some(p) => p == g,
            None => id == g,
        };
        if !matches_root {
            return LineOutcome::Filtered;
        }
    }
    let a6 = take_until_whitespace(line, a5);
    let function_name = copy_range(line, a5, a6);
    let a7 = match pop_separator(line, a6, ' ') {
        Ok(v) => v,
        Err(e) => {
            return LineOutcome::Failed(e);
        },
    };
    let (states, a8) = match parse_state(line, a7) {
        Ok(v) => v,
        Err(e) => {
            return LineOutcome::Failed(e);
        },
    };
    let a9 = match pop_separator(line, a8, ' ') {
        Ok(v) => v,
        Err(e) => {
            return LineOutcome::Failed(e);
        },
    };
    let (args, a10) = match parse_state(line, a9) {
        Ok(v) => v,
        Err(e) => {
            return LineOutcome::Failed(e);
        },
    };
    if a10 != line.len() {
        return LineOutcome::Failed(ParsedLineError::TrailingData);
    }
    LineOutcome::Kept(
        ParsedLine {
            id,
            parent_id: cls.parent_id,
            parent: cls.parent_class_name,
            class_name: cls.class_name,
            function_name,
            state: states,
            args,
        },
    )
}

/// The records kept from a sequence of lines, in input order.
pub open spec fn kept_spec(game_id: Option<int>, lines: Seq<Seq<char>>) -> Seq<ParsedLineV>
    decreases lines.len(),
{
    if lines.len() == 0 {
        Seq::empty()
    } else {
        kept_spec(game_id, lines.drop_last()) + (match line_spec(game_id, lines.last()) {
            LineOutcomeV::Kept(r) => seq![r],
            LineOutcomeV::Filtered => Seq::empty(),
            LineOutcomeV::Failed(_) => Seq::empty(),
        })
    }
}

/// The decode errors reported over a sequence of lines, in input order.
pub open spec fn errors_spec(game_id: Option<int>, lines: Seq<Seq<char>>) -> Seq<ParsedLineError>
    decreases lines.len(),
{
    if lines.len() == 0 {
        Seq::empty()
    } else {
        errors_spec(game_id, lines.drop_last()) + (match line_spec(game_id, lines.last()) {
            LineOutcomeV::Kept(_) => Seq::empty(),
            LineOutcomeV::Filtered => Seq::empty(),
            LineOutcomeV::Failed(e) => seq![e],
        })
    }
}

/// Drives the line decoder over all input lines: collects the kept records
/// in input order, and the per-line decode errors for reporting. A failing
/// line never aborts the stream, and the filter signal is dropped silently.
pub fn parse_lines(game_id: Option<i32>, lines: &Vec<Vec<char>>) -> (r: (
    Vec<ParsedLine>,
    Vec<ParsedLineError>,
))
    ensures
        rec_views(r.0@) == kept_spec(opt_id(game_id), seq_views(lines@)),
        r.1@ == errors_spec(opt_id(game_id), seq_views(lines@)),
        forall|n: int| 0 <= n < r.0@.len() ==> (#[trigger] r.0@[n]@).wf(),
{
    let mut kept: Vec<ParsedLine> = Vec::new();
    let mut errors: Vec<ParsedLineError> = Vec::new();
    let ghost all = seq_views(lines@);
    let mut n: usize = 0;
    proof {
        assert(rec_views(kept@) =~= kept_spec(opt_id(game_id), all.subrange(0, 0)));
        assert(errors@ =~= errors_spec(opt_id(game_id), all.subrange(0, 0)));
    }
    while n < lines.len()
        invariant
            n <= lines@.len(),
            all == seq_views(lines@),
            rec_views(kept@) == kept_spec(opt_id(game_id), all.subrange(0, n as int)),
            errors@ == errors_spec(opt_id(game_id), all.subrange(0, n as int)),
            forall|m: int| 0 <= m < kept@.len() ==> (#[trigger] kept@[m]@).wf(),
        decreases lines@.len() - n,
    {
        let ghost prefix = all.subrange(0, n as int);
        let ghost prefix1 = all.subrange(0, n + 1 as int);
        proof {
            assert(prefix1.drop_last() =~= prefix);
            assert(prefix1.last() == lines@[n as int]@);
        }
        match parse(game_id, &lines[n]) {
            LineOutcome::Kept(rec) => {
                let ghost old_kept = kept@;
                kept.push(rec);
                proof {
                    assert(rec_views(kept@) =~= rec_views(old_kept).push(rec@));
                    assert(kept_spec(opt_id(game_id), prefix1) == kept_spec(
                        opt_id(game_id),
                        prefix,
                    ) + seq![rec@]);
                    assert(rec_views(old_kept).push(rec@) =~= rec_views(old_kept) + seq![rec@]);
                    assert(errors_spec(opt_id(game_id), prefix1) =~= errors_spec(
                        opt_id(game_id),
                        prefix,
                    ));
                }
            },
            LineOutcome::Filtered => {
                proof {
                    assert(kept_spec(opt_id(game_id), prefix1) =~= kept_spec(
                        opt_id(game_id),
                        prefix,
                    ));
                    assert(errors_spec(opt_id(game_id), prefix1) =~= errors_spec(
                        opt_id(game_id),
                        prefix,
                    ));
                }
            },
            LineOutcome::Failed(e) => {
                let ghost old_errors = errors@;
                errors.push(e);
                proof {
                    assert(kept_spec(opt_id(game_id), prefix1) =~= kept_spec(
                        opt_id(game_id),
                        prefix,
                    ));
                    assert(errors@ =~= old_errors + seq![e]);
                    assert(errors_spec(opt_id(game_id), prefix1) == errors_spec(
                        opt_id(game_id),
                        prefix,
                    ) + seq![e]);
                }
            },
        }
        n += 1;
    }
    proof {
        assert(all.subrange(0, lines@.len() as int) =~= all);
    }
    (kept, errors)
}

/// The encoding of the items themselves: for each item its decimal length,
/// one `:`, then the item verbatim, with nothing in between.
pub open spec fn encode_items(items: Seq<Seq<char>>) -> Seq<char>
    decreases items.len(),
{
    if items.len() == 0 {
        Seq::empty()
    } else {
        dec_digits(items[0].len()) + seq![':'] + items[0] + encode_items(items.drop_first())
    }
}

/// The encoding of a whole state block: the decimal item count, one `:`,
/// then the encoded items.
pub open spec fn encode_block(items: Seq<Seq<char>>) -> Seq<char> {
    dec_digits(items.len()) + seq![':'] + encode_items(items)
}

/// Encodes items as a state block, the exact inverse of `parse_state`.
pub fn encode_state_block(items: &Vec<Vec<char>>) -> (out: Vec<char>)
    ensures
        out@ == encode_block(seq_views(items@)),
{
    let ghost views = seq_views(items@);
    let mut out: Vec<char> = Vec::new();
    push_dec(&mut out, items.len() as u64);
    out.push(':');
    let ghost head = dec_digits(views.len()) + seq![':'];
    proof {
        assert(out@ =~= head);
        assert(views.skip(0) =~= views);
    }
    let mut k: usize = 0;
    while k < items.len()
        invariant
            k <= items@.len(),
            views == seq_views(items@),
            head == dec_digits(views.len()) + seq![':'],
            out@ + encode_items(views.skip(k as int)) == head + encode_items(views),
        decreases items@.len() - k,
    {
        let ghost before = out@;
        push_dec(&mut out, items[k].len() as u64);
        out.push(':');
        push_chars(&mut out, &items[k]);
        k += 1;
        proof {
            let suf = views.skip(k - 1);
            assert(suf[0] == items@[k - 1]@);
            assert(suf.drop_first() =~= views.skip(k as int));
            assert(encode_items(suf) == dec_digits(suf[0].len()) + seq![':'] + suf[0]
                + encode_items(suf.drop_first()));
            assert(out@ =~= before + dec_digits(items@[k - 1]@.len()) + seq![':'] + items@[k
                - 1]@);
            assert(out@ + encode_items(views.skip(k as int)) =~= before + encode_items(suf));
        }
    }
    proof {
        assert(views.skip(views.len() as int) =~= Seq::<Seq<char>>::empty());
        assert(out@ + encode_items(views.skip(views.len() as int)) =~= out@);
        assert(out@ =~= head + encode_items(views));
        assert(out@ =~= encode_block(views));
    }
    out
}

/// Decoding depends on the input text and the configured root id alone:
/// equal lines decode to equal outcomes.
pub proof fn lemma_decode_deterministic(game_id: Option<int>, s1: Seq<char>, s2: Seq<char>)
    requires
        s1 == s2,
    ensures
        line_spec(game_id, s1) == line_spec(game_id, s2),
{
}

proof fn lemma_items_round_trip(s: Seq<char>, i: int, items: Seq<Seq<char>>)
    requires
        0 <= i <= s.len(),
        s.subrange(i, s.len() as int) == encode_items(items),
        forall|k: int| 0 <= k < items.len() ==> (#[trigger] items[k]).len() <= usize::MAX,
        forall|k: int| 0 <= k < items.len() && items[k].len() > 0 ==> items[k][0] != ':',
    ensures
        items_spec(s, i, items.len() as nat) == Ok::<(Seq<Seq<char>>, int), ParsedLineError>(
            (items, s.len() as int),
        ),
    decreases items.len(),
{
    let suffix = s.subrange(i, s.len() as int);
    if items.len() == 0 {
        assert(suffix.len() == 0);
        assert(i == s.len());
        assert(items =~= Seq::<Seq<char>>::empty());
    } else {
        let item0 = items[0];
        let tail = items.drop_first();
        let ld = dec_digits(item0.len());
        lemma_dec_digits(item0.len());
        assert(encode_items(items) == ld + seq![':'] + item0 + encode_items(tail));
        let a = i + ld.len();
        let b = a + 1;
        let c_end = b + item0.len();
        assert(suffix.len() == ld.len() + 1 + item0.len() + encode_items(tail).len());
        // the digit run of the length field
        assert forall|m: int| i <= m < a implies is_digit(s[m]) by {
            assert(s[m] == suffix[m - i]);
            assert(suffix[m - i] == ld[m - i]);
        }
        assert(s[a] == suffix[a - i]);
        assert(suffix[a - i] == ':');
        assert(!is_digit(s[a]));
        lemma_run_end_unique(s, i, a, |c: char| is_digit(c));
        assert(digit_run_end(s, i) == a);
        assert(s.subrange(i, a) =~= ld);
        assert(digits_val(s.subrange(i, a)) == item0.len());
        assert(number_spec(s, i, usize::MAX as nat) == Ok::<(nat, int), ParsedLineError>(
            (item0.len(), a),
        ));
        // exactly one separator
        if b < s.len() {
            if item0.len() > 0 {
                assert(s[b] == suffix[b - i]);
                assert(suffix[b - i] == item0[0]);
                assert(s[b] != ':');
            } else {
                assert(suffix.len() > ld.len() + 1);
                assert(tail.len() > 0);
                lemma_dec_digits(tail[0].len());
                assert(encode_items(tail) == dec_digits(tail[0].len()) + seq![':'] + tail[0]
                    + encode_items(tail.drop_first()));
                assert(s[b] == suffix[b - i]);
                assert(suffix[b - i] == encode_items(tail)[0]);
                assert(encode_items(tail)[0] == dec_digits(tail[0].len())[0]);
                assert(is_digit(s[b]));
                assert(s[b] != ':');
            }
        }
        assert(separator_spec(s, a, ':') == Ok::<int, ParsedLineError>(b));
        // the item itself, taken verbatim
        assert(s.len() - b >= item0.len());
        assert forall|m: int| 0 <= m < item0.len() implies s.subrange(b, c_end)[m] == item0[m] by {
            assert(s.subrange(b, c_end)[m] == suffix[b - i + m]);
            assert(suffix[b - i + m] == item0[m]);
        }
        assert(s.subrange(b, c_end) =~= item0);
        // the remaining items
        assert forall|m: int| 0 <= m < s.len() - c_end implies s.subrange(c_end, s.len() as int)[m]
            == encode_items(tail)[m] by {
            assert(s.subrange(c_end, s.len() as int)[m] == suffix[c_end - i + m]);
        }
        assert(s.subrange(c_end, s.len() as int) =~= encode_items(tail));
        assert forall|k: int| 0 <= k < tail.len() implies (#[trigger] tail[k]).len()
            <= usize::MAX by {
            assert(tail[k] == items[k + 1]);
        }
        assert forall|k: int| 0 <= k < tail.len() && tail[k].len() > 0 implies tail[k][0]
            != ':' by {
            assert(tail[k] == items[k + 1]);
        }
        lemma_items_round_trip(s, c_end, tail);
        assert(items_spec(s, i, items.len() as nat) == Ok::<(Seq<Seq<char>>, int), ParsedLineError>(
            (seq![s.subrange(b, c_end)] + tail, s.len() as int),
        ));
        assert(seq![s.subrange(b, c_end)] + tail =~= items);
    }
}

/// State-block round trip: encoding any items — including items holding
/// spaces and colons — and decoding the result yields exactly those items,
/// in order, with the whole encoding consumed. The count must fit the
/// decoder's `i32` count field and each length its `usize` length field;
/// a non-empty item must not begin with `:`, since the decoder demands that
/// the single `:` after a length not be followed by another `:`.
pub proof fn lemma_state_block_round_trip(items: Seq<Seq<char>>)
    requires
        items.len() <= i32::MAX,
        forall|k: int| 0 <= k < items.len() ==> (#[trigger] items[k]).len() <= usize::MAX,
        forall|k: int| 0 <= k < items.len() && items[k].len() > 0 ==> items[k][0] != ':',
    ensures
        state_block_spec(encode_block(items), 0) == Ok::<(Seq<Seq<char>>, int), ParsedLineError>(
            (items, encode_block(items).len() as int),
        ),
{
    let s = encode_block(items);
    let cd = dec_digits(items.len());
    lemma_dec_digits(items.len());
    let a = cd.len() as int;
    let b = a + 1;
    assert(s.len() == cd.len() + 1 + encode_items(items).len());
    assert forall|m: int| 0 <= m < a implies is_digit(s[m]) by {
        assert(s[m] == cd[m]);
    }
    assert(s[a] == ':');
    assert(!is_digit(s[a]));
    lemma_run_end_unique(s, 0, a, |c: char| is_digit(c));
    assert(s.subrange(0, a) =~= cd);
    assert(number_spec(s, 0, i32::MAX as nat) == Ok::<(nat, int), ParsedLineError>(
        (items.len(), a),
    ));
    if b < s.len() {
        assert(encode_items(items).len() > 0);
        assert(items.len() > 0);
        lemma_dec_digits(items[0].len());
        assert(encode_items(items) == dec_digits(items[0].len()) + seq![':'] + items[0]
            + encode_items(items.drop_first()));
        assert(s[b] == encode_items(items)[0]);
        assert(encode_items(items)[0] == dec_digits(items[0].len())[0]);
        assert(is_digit(s[b]));
        assert(s[b] != ':');
    }
    assert(separator_spec(s, a, ':') == Ok::<int, ParsedLineError>(b));
    assert forall|m: int| 0 <= m < s.len() - b implies s.subrange(b, s.len() as int)[m]
        == encode_items(items)[m] by {
        assert(s.subrange(b, s.len() as int)[m] == s[b + m]);
    }
    assert(s.subrange(b, s.len() as int) =~= encode_items(items));
    lemma_items_round_trip(s, b, items);
}

} // verus!
