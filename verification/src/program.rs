//! Programs: the executable form of a source listing. Comment and empty
//! lines are skipped, `MARK` lines become a label table, and the rest
//! become an ordered list of steps with a cursor.

use vstd::prelude::*;

use crate::instruction::{
    self, parse_line_spec, parse_result_view, Instruction, InstructionView,
};
use crate::value::{Value, ValueView};

verus! {

/// The model of a program: its source lines, its steps as pairs of
/// source line number and instruction, its label table, and its cursor.
#[verifier::ext_equal]
pub struct ProgramView {
    pub raw_lines: Seq<Seq<char>>,
    pub steps: Seq<(int, InstructionView)>,
    pub marks: Map<Seq<char>, int>,
    pub cursor: int,
}

/// A line the program reader passes over: a comment or nothing at all.
pub open spec fn is_skipped_line(l: Seq<char>) -> bool {
    l.len() == 0 || l[0] == '#'
}

/// The text of a label value.
pub open spec fn label_of(v: ValueView) -> Option<Seq<char>> {
    match v {
        ValueView::LabelId(l) => Some(l),
        _ => None,
    }
}

/// The label a jump-like instruction aims at, if it is one.
pub open spec fn jump_label(i: InstructionView) -> Option<Seq<char>> {
    match i {
        InstructionView::Jump(v) => label_of(v),
        InstructionView::JumpIfTrue(v) => label_of(v),
        InstructionView::JumpIfFalse(v) => label_of(v),
        InstructionView::Replicate(v) => label_of(v),
        _ => None,
    }
}

/// A `MARK` carrying a label: the line that feeds the label table.
pub open spec fn is_labelled_mark(i: InstructionView) -> bool {
    i matches InstructionView::Mark(v) && v is LabelId
}

/// The parse outcomes of the lines that are not skipped, each with its
/// line number.
pub open spec fn parsed_results(lines: Seq<Seq<char>>) -> Seq<
    (int, Result<InstructionView, instruction::ParseError>),
>
    decreases lines.len(),
{
    if lines.len() == 0 {
        Seq::empty()
    } else {
        parsed_results(lines.drop_last()) + (if is_skipped_line(lines.last()) {
            Seq::empty()
        } else {
            seq![((lines.len() - 1) as int, parse_line_spec(lines.last()))]
        })
    }
}

/// The steps of a program: every parsed instruction in order except
/// labelled `MARK`s, paired with its source line number.
pub open spec fn program_steps(lines: Seq<Seq<char>>) -> Seq<(int, InstructionView)>
    decreases lines.len(),
{
    if lines.len() == 0 {
        Seq::empty()
    } else {
        let pre = program_steps(lines.drop_last());
        let l = lines.last();
        if is_skipped_line(l) {
            pre
        } else {
            match parse_line_spec(l) {
                Ok(iv) => if is_labelled_mark(iv) {
                    pre
                } else {
                    pre.push(((lines.len() - 1) as int, iv))
                },
                Err(_) => pre,
            }
        }
    }
}

/// The label table: each `MARK` label maps to the index of the next real
/// instruction, that is, the number of steps seen so far.
pub open spec fn program_marks(lines: Seq<Seq<char>>) -> Map<Seq<char>, int>
    decreases lines.len(),
{
    if lines.len() == 0 {
        Map::empty()
    } else {
        let pre = program_marks(lines.drop_last());
        let l = lines.last();
        if is_skipped_line(l) {
            pre
        } else {
            match parse_line_spec(l) {
                Ok(iv) => match iv {
                    InstructionView::Mark(v) => match v {
                        ValueView::LabelId(label) => pre.insert(
                            label,
                            program_steps(lines.drop_last()).len() as int,
                        ),
                        _ => pre,
                    },
                    _ => pre,
                },
                Err(_) => pre,
            }
        }
    }
}

/// One line's diagnostic.
#[derive(Debug, Clone, PartialEq)]
pub enum LineParseError {
    InvalidInstruction(usize, instruction::ParseError),
    MissingMarkLabel(usize, String),
}

/// The model of a line diagnostic.
pub enum LineParseErrorView {
    InvalidInstruction(int, instruction::ParseError),
    MissingMarkLabel(int, Seq<char>),
}

impl View for LineParseError {
    type V = LineParseErrorView;

    open spec fn view(&self) -> LineParseErrorView {
        match self {
            LineParseError::InvalidInstruction(n, e) => LineParseErrorView::InvalidInstruction(
                *n as int,
                *e,
            ),
            LineParseError::MissingMarkLabel(n, l) => LineParseErrorView::MissingMarkLabel(
                *n as int,
                l@,
            ),
        }
    }
}

/// The per-line diagnostics: an unparsable line, or a jump aimed at a
/// label that no `MARK` of the listing carries, in line order.
pub open spec fn program_errors(
    rs: Seq<(int, Result<InstructionView, instruction::ParseError>)>,
    marks: Map<Seq<char>, int>,
) -> Seq<LineParseErrorView>
    decreases rs.len(),
{
    if rs.len() == 0 {
        Seq::empty()
    } else {
        program_errors(rs.drop_last(), marks) + (match rs.last().1 {
            Ok(iv) => match jump_label(iv) {
                Some(l) => if !marks.contains_key(l) {
                    seq![LineParseErrorView::MissingMarkLabel(rs.last().0, l)]
                } else {
                    Seq::empty()
                },
                None => Seq::empty(),
            },
            Err(e) => seq![LineParseErrorView::InvalidInstruction(rs.last().0, e)],
        })
    }
}

/// All diagnostics of a source listing.
pub open spec fn listing_errors(lines: Seq<Seq<char>>) -> Seq<LineParseErrorView> {
    program_errors(parsed_results(lines), program_marks(lines))
}

/// A program is well formed when its cursor and its labels point into
/// its steps (one past the end included) and every jump's label is in
/// the table.
pub open spec fn program_wf(p: ProgramView) -> bool {
    &&& 0 <= p.cursor <= p.steps.len()
    &&& (forall|l: Seq<char>|
        p.marks.contains_key(l) ==> 0 <= #[trigger] p.marks[l] <= p.steps.len())
    &&& (forall|i: int|
        0 <= i < p.steps.len() ==> (jump_label(#[trigger] p.steps[i].1) matches Some(l)
            ==> p.marks.contains_key(l)))
}

/// The diagnostics of a refused listing, in line order.
#[derive(Debug, Clone, PartialEq)]
pub struct ParseError(pub Vec<LineParseError>);

impl View for ParseError {
    type V = Seq<LineParseErrorView>;

    open spec fn view(&self) -> Seq<LineParseErrorView> {
        self.0@.map_values(|e: LineParseError| e@)
    }
}

/// An ordered list of instructions with a label table and a cursor.
#[derive(Debug, PartialEq)]
pub struct Program {
    raw_lines: Vec<String>,
    instructions: Vec<(usize, Instruction)>,
    marks: Vec<(String, usize)>,
    stack_index: usize,
}

/// The index a label maps to: the first entry of the table that carries
/// it. Entries are pushed at the front, so a newer mark shadows an older
/// one of the same label.
pub open spec fn find_mark(s: Seq<(String, usize)>, l: Seq<char>) -> Option<int>
    decreases s.len(),
{
    if s.len() == 0 {
        None
    } else if s[0].0@ == l {
        Some(s[0].1 as int)
    } else {
        find_mark(s.drop_first(), l)
    }
}

/// The label table a mark list stands for.
pub open spec fn marks_map(s: Seq<(String, usize)>) -> Map<Seq<char>, int> {
    Map::new(|l: Seq<char>| find_mark(s, l) is Some, |l: Seq<char>| find_mark(s, l)->0)
}

/// The model of a parse-results list.
pub open spec fn results_view(v: Seq<(usize, Result<Instruction, instruction::ParseError>)>)
    -> Seq<(int, Result<InstructionView, instruction::ParseError>)> {
    v.map_values(
        |p: (usize, Result<Instruction, instruction::ParseError>)|
            (p.0 as int, parse_result_view(p.1)),
    )
}

impl View for Program {
    type V = ProgramView;

    closed spec fn view(&self) -> ProgramView {
        ProgramView {
            raw_lines: self.raw_lines@.map_values(|l: String| l@),
            steps: self.instructions@.map_values(
                |p: (usize, Instruction)| (p.0 as int, p.1@),
            ),
            marks: marks_map(self.marks@),
            cursor: self.stack_index as int,
        }
    }
}

/// Labels only ever map to indices no larger than the number of steps.
proof fn lemma_marks_bounded(lines: Seq<Seq<char>>)
    ensures
        forall|l: Seq<char>|
            program_marks(lines).contains_key(l) ==> 0 <= #[trigger] program_marks(lines)[l]
                <= program_steps(lines).len(),
    decreases lines.len(),
{
    if lines.len() > 0 {
        let pre = lines.drop_last();
        lemma_marks_bounded(pre);
        assert(program_steps(lines).len() >= program_steps(pre).len());
        assert forall|l: Seq<char>| program_marks(lines).contains_key(l) implies 0 <= #[trigger] program_marks(
            lines,
        )[l] <= program_steps(lines).len() by {
            if program_marks(pre).contains_key(l) && program_marks(lines)[l] == program_marks(
                pre,
            )[l] {
                assert(program_marks(pre)[l] <= program_steps(pre).len());
            }
        }
    }
}

/// When a listing has no diagnostics, every jump's label is in the given
/// table.
proof fn lemma_no_missing(lines: Seq<Seq<char>>, m: Map<Seq<char>, int>)
    requires
        program_errors(parsed_results(lines), m).len() == 0,
    ensures
        forall|i: int|
            0 <= i < program_steps(lines).len() ==> (jump_label(
                #[trigger] program_steps(lines)[i].1,
            ) matches Some(l) ==> m.contains_key(l)),
    decreases lines.len(),
{
    if lines.len() > 0 {
        let pre = lines.drop_last();
        let l = lines.last();
        let rs = parsed_results(lines);
        if is_skipped_line(l) {
            assert(rs == parsed_results(pre));
            lemma_no_missing(pre, m);
        } else {
            assert(rs.drop_last() =~= parsed_results(pre));
            assert(program_errors(rs, m).len() == program_errors(rs.drop_last(), m).len()
                + (match rs.last().1 {
                Ok(iv) => match jump_label(iv) {
                    Some(lab) => if !m.contains_key(lab) {
                        1int
                    } else {
                        0int
                    },
                    None => 0int,
                },
                Err(_) => 1int,
            }));
            lemma_no_missing(pre, m);
        }
    }
}

/// A parsed line that is not a labelled `MARK` makes a sound step:
/// jump-like instructions carry labels.
proof fn lemma_parse_step_ok(l: Seq<char>)
    ensures
        match parse_line_spec(l) {
            Ok(iv) => !is_labelled_mark(iv) ==> crate::step::step_instr_ok(iv),
            Err(_) => true,
        },
{
}

/// Every step of a parsed listing is sound in the sense of
/// [`crate::step::step_instr_ok`].
proof fn lemma_steps_ok(lines: Seq<Seq<char>>)
    ensures
        forall|i: int|
            0 <= i < program_steps(lines).len() ==> crate::step::step_instr_ok(
                #[trigger] program_steps(lines)[i].1,
            ),
    decreases lines.len(),
{
    if lines.len() > 0 {
        lemma_steps_ok(lines.drop_last());
        lemma_parse_step_ok(lines.last());
        let pre = program_steps(lines.drop_last());
        let all = program_steps(lines);
        assert forall|i: int|
            0 <= i < all.len() implies crate::step::step_instr_ok(#[trigger] all[i].1) by {
            if i < pre.len() {
                assert(all[i] == pre[i]);
            }
        }
    }
}

impl Program {
    /// Reads a source listing into a program, exactly as the spec
    /// functions [`program_steps`], [`program_marks`] and
    /// [`listing_errors`] describe: a refused listing hands back its
    /// diagnostics in line order.
    pub fn new(instruction_strings: &[String]) -> (r: Result<Self, ParseError>)
        ensures
            ({
                let lines = instruction_strings@.map_values(|l: String| l@);
                &&& (r is Ok <==> listing_errors(lines).len() == 0)
                &&& (r matches Ok(p) ==> p@.raw_lines == lines && p@.steps == program_steps(
                    lines,
                ) && p@.marks == program_marks(lines) && p@.cursor == 0 && program_wf(p@)
                    && crate::step::steps_ok(p@))
                &&& (r matches Err(e) ==> e@ == listing_errors(lines))
            }),
    {
        let ghost lines = instruction_strings@.map_values(|l: String| l@);
        let n = instruction_strings.len();
        let mut raw_lines: Vec<String> = Vec::new();
        let mut steps: Vec<(usize, Instruction)> = Vec::new();
        let mut marks: Vec<(String, usize)> = Vec::new();
        let mut results: Vec<(usize, Result<Instruction, instruction::ParseError>)> =
            Vec::new();
        let mut i: usize = 0;
        proof {
            assert(raw_lines@.map_values(|l: String| l@) =~= lines.subrange(0, 0));
            assert(steps@.map_values(|p: (usize, Instruction)| (p.0 as int, p.1@)) =~=
                program_steps(lines.subrange(0, 0)));
            assert(marks_map(marks@) =~= program_marks(lines.subrange(0, 0)));
            assert(results_view(results@) =~= parsed_results(lines.subrange(0, 0)));
        }
        while i < n
            invariant
                i <= n,
                n == instruction_strings@.len(),
                lines == instruction_strings@.map_values(|l: String| l@),
                raw_lines@.map_values(|l: String| l@) == lines.subrange(0, i as int),
                steps@.map_values(|p: (usize, Instruction)| (p.0 as int, p.1@))
                    == program_steps(lines.subrange(0, i as int)),
                marks_map(marks@) == program_marks(lines.subrange(0, i as int)),
                results_view(results@) == parsed_results(lines.subrange(0, i as int)),
            decreases n - i,
        {
            let ghost pre = lines.subrange(0, i as int);
            let ghost pre1 = lines.subrange(0, i + 1);
            proof {
                assert(pre1.drop_last() =~= pre);
                assert(pre1.last() == lines[i as int]);
            }
            let line: &String = &instruction_strings[i];
            raw_lines.push(line.clone());
            proof {
                assert(raw_lines@.map_values(|l: String| l@) =~= pre.push(lines[i as int]));
                assert(pre.push(lines[i as int]) =~= pre1);
            }
            let lc = crate::text::chars_of(line.as_str());
            if lc.len() == 0 || lc[0] == '#' {
                proof {
                    assert(is_skipped_line(lines[i as int]));
                    assert(program_steps(pre1) == program_steps(pre));
                    assert(program_marks(pre1) == program_marks(pre));
                    assert(parsed_results(pre1) =~= parsed_results(pre));
                }
            } else {
                let parsed = Instruction::parse_line(line.as_str());
                let ghost old_marks = marks@;
                let ghost old_steps_view = steps@.map_values(
                    |p: (usize, Instruction)| (p.0 as int, p.1@),
                );
                match &parsed {
                    Ok(instr) => {
                        let mut is_mark_label = false;
                        match instr {
                            Instruction::Mark(v) => match v {
                                Value::LabelId(label) => {
                                    marks.insert(0, (label.clone(), steps.len()));
                                    is_mark_label = true;
                                    proof {
                                        assert(marks@.drop_first() =~= old_marks);
                                        assert(marks_map(marks@) =~= program_marks(pre).insert(
                                            label@,
                                            program_steps(pre).len() as int,
                                        ));
                                    }
                                },
                                _ => {},
                            },
                            _ => {},
                        }
                        if !is_mark_label {
                            steps.push((i, instr.clone()));
                            proof {
                                assert(steps@.map_values(
                                    |p: (usize, Instruction)| (p.0 as int, p.1@),
                                ) =~= old_steps_view.push((i as int, instr@)));
                            }
                        }
                    },
                    Err(_) => {},
                }
                results.push((i, parsed));
                proof {
                    assert(results_view(results@) =~= parsed_results(pre).push(
                        (i as int, parse_line_spec(lines[i as int])),
                    ));
                    assert(parsed_results(pre1) =~= parsed_results(pre).push(
                        (i as int, parse_line_spec(lines[i as int])),
                    ));
                    assert(steps@.map_values(|p: (usize, Instruction)| (p.0 as int, p.1@))
                        =~= program_steps(pre1));
                    assert(marks_map(marks@) =~= program_marks(pre1));
                }
            }
            i += 1;
        }
        proof {
            assert(lines.subrange(0, n as int) =~= lines);
        }
        let ghost final_marks = marks_map(marks@);
        let mut errors: Vec<LineParseError> = Vec::new();
        let rn = results.len();
        let mut j: usize = 0;
        proof {
            assert(errors@.map_values(|e: LineParseError| e@) =~= program_errors(
                results_view(results@).subrange(0, 0),
                final_marks,
            ));
        }
        while j < rn
            invariant
                j <= rn,
                rn == results@.len(),
                final_marks == marks_map(marks@),
                results_view(results@) == parsed_results(lines),
                errors@.map_values(|e: LineParseError| e@) == program_errors(
                    results_view(results@).subrange(0, j as int),
                    final_marks,
                ),
            decreases rn - j,
        {
            let ghost rpre = results_view(results@).subrange(0, j as int);
            let ghost rpre1 = results_view(results@).subrange(0, j + 1);
            let ghost old_errors_view = errors@.map_values(|e: LineParseError| e@);
            proof {
                assert(rpre1.drop_last() =~= rpre);
                assert(rpre1.last() == results_view(results@)[j as int]);
            }
            let entry = &results[j];
            match &entry.1 {
                Ok(instr) => {
                    match Self::jump_label_exec(instr) {
                        Some(label) => {
                            if Self::find_mark_index(&marks, label.as_str()).is_none() {
                                errors.push(
                                    LineParseError::MissingMarkLabel(entry.0, label),
                                );
                                proof {
                                    assert(errors@.map_values(|e: LineParseError| e@) =~=
                                        old_errors_view.push(
                                        LineParseErrorView::MissingMarkLabel(
                                            entry.0 as int,
                                            label@,
                                        ),
                                    ));
                                }
                            }
                        },
                        None => {},
                    }
                },
                Err(e) => {
                    errors.push(LineParseError::InvalidInstruction(entry.0, *e));
                    proof {
                        assert(errors@.map_values(|er: LineParseError| er@) =~=
                            old_errors_view.push(LineParseErrorView::InvalidInstruction(
                            entry.0 as int,
                            *e,
                        )));
                    }
                },
            }
            proof {
                assert(errors@.map_values(|e: LineParseError| e@) =~= program_errors(
                    rpre1,
                    final_marks,
                ));
            }
            j += 1;
        }
        proof {
            assert(results_view(results@).subrange(0, rn as int) =~= results_view(results@));
        }
        if errors.len() == 0 {
            let program = Program { raw_lines, instructions: steps, marks, stack_index: 0 };
            proof {
                assert(listing_errors(lines).len() == 0);
                lemma_marks_bounded(lines);
                lemma_no_missing(lines, final_marks);
                lemma_steps_ok(lines);
            }
            Ok(program)
        } else {
            Err(ParseError(errors))
        }
    }

    /// The label a jump-like instruction aims at, if it is one.
    fn jump_label_exec(i: &Instruction) -> (r: Option<String>)
        ensures
            match r {
                Some(s) => jump_label(i@) == Some(s@),
                None => jump_label(i@) is None,
            },
    {
        match i {
            Instruction::Jump(v) => Self::label_text(v),
            Instruction::JumpIfTrue(v) => Self::label_text(v),
            Instruction::JumpIfFalse(v) => Self::label_text(v),
            Instruction::Replicate(v) => Self::label_text(v),
            _ => None,
        }
    }

    /// The text of a label value.
    fn label_text(v: &Value) -> (r: Option<String>)
        ensures
            match r {
                Some(s) => label_of(v@) == Some(s@),
                None => label_of(v@) is None,
            },
    {
        match v {
            Value::LabelId(l) => Some(l.clone()),
            _ => None,
        }
    }

    /// Scans the mark list for a label, first entry wins.
    fn find_mark_index(marks: &Vec<(String, usize)>, label: &str) -> (r: Option<usize>)
        ensures
            match r {
                Some(ix) => find_mark(marks@, label@) == Some(ix as int),
                None => find_mark(marks@, label@) is None,
            },
    {
        let n = marks.len();
        let mut k: usize = 0;
        proof {
            assert(marks@.skip(0) =~= marks@);
        }
        while k < n
            invariant
                k <= n,
                n == marks@.len(),
                find_mark(marks@, label@) == find_mark(marks@.skip(k as int), label@),
            decreases n - k,
        {
            proof {
                assert(marks@.skip(k as int).drop_first() =~= marks@.skip(k + 1));
            }
            if crate::text::str_eq(marks[k].0.as_str(), label) {
                return Some(marks[k].1);
            }
            k += 1;
        }
        None
    }

    /// The step under the cursor, cloned, without moving the cursor.
    pub fn peak_current_instruction(&self) -> (r: Option<(usize, Instruction)>)
        ensures
            self@.cursor < self@.steps.len() ==> (r matches Some(p) && (p.0 as int, p.1@)
                == self@.steps[self@.cursor]),
            self@.cursor >= self@.steps.len() ==> r is None,
    {
        if self.stack_index < self.instructions.len() {
            let p = &self.instructions[self.stack_index];
            Some((p.0, p.1.clone()))
        } else {
            None
        }
    }

    /// The step under the cursor, cloned; the cursor moves one step
    /// forward when there was one.
    pub fn get_current_instruction(&mut self) -> (r: Option<(usize, Instruction)>)
        ensures
            old(self)@.cursor < old(self)@.steps.len() ==> (r matches Some(p) && (
            p.0 as int,
            p.1@,
            ) == old(self)@.steps[old(self)@.cursor]) && final(self)@ == (ProgramView {
                cursor: old(self)@.cursor + 1,
                raw_lines: old(self)@.raw_lines,
                steps: old(self)@.steps,
                marks: old(self)@.marks,
            }),
            old(self)@.cursor >= old(self)@.steps.len() ==> r is None && *final(self) == *old(
                self,
            ),
    {
        if self.stack_index < self.instructions.len() {
            let p = &self.instructions[self.stack_index];
            let result = Some((p.0, p.1.clone()));
            self.stack_index = self.stack_index + 1;
            result
        } else {
            None
        }
    }

    /// Moves the cursor one step forward.
    pub fn advance(&mut self)
        requires
            old(self)@.cursor < old(self)@.steps.len(),
        ensures
            final(self)@ == (ProgramView {
                cursor: old(self)@.cursor + 1,
                raw_lines: old(self)@.raw_lines,
                steps: old(self)@.steps,
                marks: old(self)@.marks,
            }),
    {
        let n = self.instructions.len();
        proof {
            assert(self.stack_index < n);
        }
        self.stack_index = self.stack_index + 1;
    }

    /// Sets the cursor to the step a `MARK` label points at.
    pub fn jump_to(&mut self, mark_label: &Value)
        requires
            mark_label@ matches ValueView::LabelId(l) && old(self)@.marks.contains_key(l),
        ensures
            final(self)@ == (ProgramView {
                cursor: old(self)@.marks[mark_label@->LabelId_0],
                raw_lines: old(self)@.raw_lines,
                steps: old(self)@.steps,
                marks: old(self)@.marks,
            }),
    {
        match mark_label {
            Value::LabelId(label) => {
                match Self::find_mark_index(&self.marks, label.as_str()) {
                    Some(ix) => {
                        self.stack_index = ix;
                    },
                    None => {
                        vstd::pervasive::unreached::<()>();
                    },
                }
            },
            _ => {
                vstd::pervasive::unreached::<()>();
            },
        }
    }

    /// The index the label table gives for a label, if any.
    pub fn mark_index(&self, label: &str) -> (r: Option<usize>)
        ensures
            match r {
                Some(ix) => self@.marks.contains_key(label@) && ix as int
                    == self@.marks[label@],
                None => !self@.marks.contains_key(label@),
            },
    {
        Self::find_mark_index(&self.marks, label)
    }

    /// Where the cursor stands.
    pub fn cursor(&self) -> (c: usize)
        ensures
            c as int == self@.cursor,
    {
        self.stack_index
    }

    /// How many steps the program has.
    pub fn step_count(&self) -> (c: usize)
        ensures
            c as int == self@.steps.len(),
    {
        self.instructions.len()
    }
}

impl Clone for Program {
    /// A program equal to this one in every part of its model.
    fn clone(&self) -> (r: Self)
        ensures
            r@ == self@,
    {
        let r = Program {
            raw_lines: clone_strings(&self.raw_lines),
            instructions: clone_steps(&self.instructions),
            marks: clone_marks(&self.marks),
            stack_index: self.stack_index,
        };
        proof {
            assert(r@.raw_lines =~= self@.raw_lines);
            assert(r@.steps =~= self@.steps);
            assert(r@.marks =~= self@.marks);
        }
        r
    }
}

/// A fresh vector with the same strings.
fn clone_strings(v: &Vec<String>) -> (r: Vec<String>)
    ensures
        r@ == v@,
{
    let mut r: Vec<String> = Vec::new();
    let n = v.len();
    let mut i: usize = 0;
    while i < n
        invariant
            i <= n,
            n == v@.len(),
            r@ == v@.subrange(0, i as int),
        decreases n - i,
    {
        r.push(v[i].clone());
        proof {
            assert(v@.subrange(0, i + 1) =~= v@.subrange(0, i as int).push(v@[i as int]));
        }
        i += 1;
    }
    proof {
        assert(v@.subrange(0, n as int) =~= v@);
    }
    r
}

/// A fresh vector with the same numbered instructions.
fn clone_steps(v: &Vec<(usize, Instruction)>) -> (r: Vec<(usize, Instruction)>)
    ensures
        r@ == v@,
{
    let mut r: Vec<(usize, Instruction)> = Vec::new();
    let n = v.len();
    let mut i: usize = 0;
    while i < n
        invariant
            i <= n,
            n == v@.len(),
            r@ == v@.subrange(0, i as int),
        decreases n - i,
    {
        let p = &v[i];
        r.push((p.0, p.1.clone()));
        proof {
            assert(v@.subrange(0, i + 1) =~= v@.subrange(0, i as int).push(v@[i as int]));
        }
        i += 1;
    }
    proof {
        assert(v@.subrange(0, n as int) =~= v@);
    }
    r
}

/// A fresh vector with the same labelled indices.
fn clone_marks(v: &Vec<(String, usize)>) -> (r: Vec<(String, usize)>)
    ensures
        r@ == v@,
{
    let mut r: Vec<(String, usize)> = Vec::new();
    let n = v.len();
    let mut i: usize = 0;
    while i < n
        invariant
            i <= n,
            n == v@.len(),
            r@ == v@.subrange(0, i as int),
        decreases n - i,
    {
        let p = &v[i];
        r.push((p.0.clone(), p.1));
        proof {
            assert(v@.subrange(0, i + 1) =~= v@.subrange(0, i as int).push(v@[i as int]));
        }
        i += 1;
    }
    proof {
        assert(v@.subrange(0, n as int) =~= v@);
    }
    r
}

} // verus!
