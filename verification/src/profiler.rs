//! The weight profiler: it reads the instructions of a script one by one,
//! recognizes the markers that delimit regions, and records for each label
//! the weight of every region that carried it.

use crate::histogram::{
    distinct_labels, has_label, histogram_clone, histogram_get_index, histogram_get_mut, histogram_insert,
    histogram_len, histogram_new, histogram_rows, lemma_record_keeps_labels_distinct, record,
    row_of, Rows,
};
use crate::script::{
    discard_opcode, push_encoding, region_end_opcode, region_start_opcode, DISCARD, REGION_END,
    REGION_START,
};
use indexmap::IndexMap;
use vstd::prelude::*;
use vstd::utf8::{
    decode_utf8, encode_utf8, encode_utf8_decode_utf8, encode_utf8_valid_utf8, valid_utf8,
};

verus! {

/// One instruction of a script, as the instruction decoder hands it out.
#[derive(Clone, Debug, PartialEq, Eq)]
pub enum Instruction {
    /// Push of a byte string.
    PushBytes(Vec<u8>),
    /// Any other opcode, by its byte.
    Op(u8),
}

/// What an instruction holds.
pub enum InstructionView {
    PushBytes(Seq<u8>),
    Op(u8),
}

impl View for Instruction {
    type V = InstructionView;

    open spec fn view(&self) -> InstructionView {
        match self {
            Instruction::PushBytes(b) => InstructionView::PushBytes(b@),
            Instruction::Op(op) => InstructionView::Op(*op),
        }
    }
}

/// Where the profiler stands in reading a marker.
#[derive(Clone, Copy, Debug, PartialEq, Eq, Structural)]
pub enum Stage {
    /// Outside any marker.
    Pending,
    /// After the opcode of a start marker: the label is due.
    WaitingForPushbytesToStart,
    /// After the label of a start marker: the discard is due.
    WaitingForDropToStart,
    /// After the opcode of an end marker: the label is due.
    WaitingForPushbytesToEnd,
    /// After the label of an end marker: the discard is due.
    WaitingForDropToEnd,
}

impl Default for Stage {
    fn default() -> (r: Self)
        ensures
            r == Stage::Pending,
    {
        Stage::Pending
    }
}

/// Ways a profiling pass might fail.
#[derive(Clone, Copy, Debug, PartialEq, Eq, Structural)]
pub enum ProfilerError {
    /// An opcode stands where the label of a marker is due.
    ExpectedPushBytes,
    /// Another instruction stands where the discard of a marker is due.
    ExpectedDrop,
    /// An end marker names a region that is not the innermost open one.
    RegionNotStarted,
    /// The script ends inside a marker.
    UnfinishedMarker,
    /// The script ends with a region still open.
    UnclosedRegion,
}

impl ProfilerError {
    /// The error in words.
    pub fn message(&self) -> (s: String)
        ensures
            s@ == match *self {
                ProfilerError::ExpectedPushBytes => "Expecting pushbytes after PROFILER_START or PROFILER_END. Found other opcodes."@,
                ProfilerError::ExpectedDrop => "Expecting AS_FOLLOWS after pushbytes. Found other opcodes."@,
                ProfilerError::RegionNotStarted => "Ending a profiler unit that hasn't been started."@,
                ProfilerError::UnfinishedMarker => "There seems to be unfinished profiling instructions."@,
                ProfilerError::UnclosedRegion => "There seems to be unclosed profiling steps."@,
            },
    {
        match self {
            ProfilerError::ExpectedPushBytes => "Expecting pushbytes after PROFILER_START or PROFILER_END. Found other opcodes.".to_owned(),
            ProfilerError::ExpectedDrop => "Expecting AS_FOLLOWS after pushbytes. Found other opcodes.".to_owned(),
            ProfilerError::RegionNotStarted => "Ending a profiler unit that hasn't been started.".to_owned(),
            ProfilerError::UnfinishedMarker => "There seems to be unfinished profiling instructions.".to_owned(),
            ProfilerError::UnclosedRegion => "There seems to be unclosed profiling steps.".to_owned(),
        }
    }
}

/// The text that `String::from_utf8_lossy` makes of bytes that are not UTF-8.
pub uninterp spec fn utf8_lossy(bytes: Seq<u8>) -> Seq<char>;

/// The label that the bytes of a marker's push spell: their text where they
/// are UTF-8, and a text with replacement characters where they are not.
pub open spec fn label_text(bytes: Seq<u8>) -> Seq<char> {
    if valid_utf8(bytes) {
        decode_utf8(bytes)
    } else {
        utf8_lossy(bytes)
    }
}

/// `String::from_utf8_lossy` reads UTF-8 bytes as the text they encode; of
/// other bytes it makes a text that depends on the bytes alone.
#[verifier::external_body]
fn string_from_utf8_lossy(bytes: &[u8]) -> (s: String)
    ensures
        valid_utf8(bytes@) ==> s@ == decode_utf8(bytes@),
        !valid_utf8(bytes@) ==> s@ == utf8_lossy(bytes@),
{
    String::from_utf8_lossy(bytes).into_owned()
}

/// The weight of an ordinary push of `len` bytes: the bytes and the length
/// prefix that the script encoding gives them.
pub open spec fn push_weight(len: nat) -> nat {
    len + if len <= 75 {
        1nat
    } else if len <= 255 {
        2nat
    } else if len <= 65535 {
        3nat
    } else {
        5nat
    }
}

/// The weight that an instruction adds when it arrives at `stage`: nothing
/// inside a marker, where an instruction is part of the marker or an error.
pub open spec fn cost(stage: Stage, instruction: InstructionView) -> nat {
    match instruction {
        InstructionView::PushBytes(b) => if stage == Stage::Pending {
            push_weight(b.len())
        } else {
            0
        },
        InstructionView::Op(op) => if stage == Stage::Pending && op != REGION_START && op
            != REGION_END {
            1
        } else {
            0
        },
    }
}

/// The state of a profiling pass.
pub struct ProfilerView {
    pub stage: Stage,
    /// The label of the marker being read.
    pub pending: Seq<char>,
    /// The open regions, outermost first: label and weight at the start.
    pub open_regions: Seq<(Seq<char>, nat)>,
    /// The weight of the instructions read so far.
    pub weight: nat,
    /// The weights measured so far.
    pub rows: Rows,
}

/// The state after one instruction, or the error that it meets.
pub open spec fn step(p: ProfilerView, instruction: InstructionView) -> Result<
    ProfilerView,
    ProfilerError,
> {
    let counted = ProfilerView { weight: p.weight + cost(p.stage, instruction), ..p };
    match instruction {
        InstructionView::PushBytes(b) => match p.stage {
            Stage::WaitingForPushbytesToStart => Ok(
                ProfilerView { stage: Stage::WaitingForDropToStart, pending: label_text(b), ..p },
            ),
            Stage::WaitingForPushbytesToEnd => Ok(
                ProfilerView { stage: Stage::WaitingForDropToEnd, pending: label_text(b), ..p },
            ),
            Stage::WaitingForDropToStart | Stage::WaitingForDropToEnd => Err(
                ProfilerError::ExpectedDrop,
            ),
            Stage::Pending => Ok(counted),
        },
        InstructionView::Op(op) => match p.stage {
            Stage::Pending => if op == REGION_START {
                Ok(ProfilerView { stage: Stage::WaitingForPushbytesToStart, ..p })
            } else if op == REGION_END {
                Ok(ProfilerView { stage: Stage::WaitingForPushbytesToEnd, ..p })
            } else {
                Ok(counted)
            },
            Stage::WaitingForPushbytesToStart | Stage::WaitingForPushbytesToEnd => Err(
                ProfilerError::ExpectedPushBytes,
            ),
            Stage::WaitingForDropToStart => if op != DISCARD {
                Err(ProfilerError::ExpectedDrop)
            } else {
                Ok(
                    ProfilerView {
                        stage: Stage::Pending,
                        open_regions: p.open_regions.push((p.pending, p.weight)),
                        ..p
                    },
                )
            },
            Stage::WaitingForDropToEnd => if op != DISCARD {
                Err(ProfilerError::ExpectedDrop)
            } else if p.open_regions.len() > 0 && p.open_regions.last().0 == p.pending {
                Ok(
                    ProfilerView {
                        stage: Stage::Pending,
                        open_regions: p.open_regions.drop_last(),
                        rows: record(
                            p.rows,
                            p.pending,
                            (p.weight - p.open_regions.last().1) as usize,
                        ),
                        ..p
                    },
                )
            } else {
                Err(ProfilerError::RegionNotStarted)
            },
        },
    }
}

/// Whether no open region started above the current weight, and the
/// histogram has one row per label.
pub open spec fn consistent(p: ProfilerView) -> bool {
    &&& forall|i: int| 0 <= i < p.open_regions.len() ==> (#[trigger] p.open_regions[i]).1 <= p.weight
    &&& distinct_labels(p.rows)
}

/// A step keeps a consistent state consistent.
pub proof fn lemma_step_consistent(p: ProfilerView, instruction: InstructionView)
    requires
        consistent(p),
    ensures
        step(p, instruction) matches Ok(next) ==> consistent(next),
{
    if let Ok(next) = step(p, instruction) {
        if next.rows != p.rows {
            lemma_record_keeps_labels_distinct(
                p.rows,
                p.pending,
                (p.weight - p.open_regions.last().1) as usize,
            );
        }
        assert forall|i: int| 0 <= i < next.open_regions.len() implies (
        #[trigger] next.open_regions[i]).1 <= next.weight by {
            if i < p.open_regions.len() {
                assert(next.open_regions[i] == p.open_regions[i]);
            }
        }
    }
}

/// The state after a run of instructions, or the first error met.
pub open spec fn run(p: ProfilerView, instructions: Seq<InstructionView>) -> Result<
    ProfilerView,
    ProfilerError,
>
    decreases instructions.len(),
{
    if instructions.len() == 0 {
        Ok(p)
    } else {
        match run(p, instructions.drop_last()) {
            Ok(q) => step(q, instructions.last()),
            Err(e) => Err(e),
        }
    }
}

/// The three instructions of the marker that `opcode` opens for a label
/// spelled by `label`.
pub open spec fn marker_instructions(opcode: u8, label: Seq<u8>) -> Seq<InstructionView> {
    seq![
        InstructionView::Op(opcode),
        InstructionView::PushBytes(label),
        InstructionView::Op(DISCARD),
    ]
}

/// Whether an instruction is none of the two opcodes that open a marker.
pub open spec fn is_plain(instruction: InstructionView) -> bool {
    instruction != InstructionView::Op(REGION_START) && instruction != InstructionView::Op(
        REGION_END,
    )
}

/// The weight of a run of instructions outside any marker.
pub open spec fn plain_weight(instructions: Seq<InstructionView>) -> nat
    decreases instructions.len(),
{
    if instructions.len() == 0 {
        0
    } else {
        plain_weight(instructions.drop_last()) + cost(Stage::Pending, instructions.last())
    }
}

/// Running two sequences in a row is running the first, then the second
/// from where the first ended.
pub proof fn lemma_run_concat(
    p: ProfilerView,
    first: Seq<InstructionView>,
    second: Seq<InstructionView>,
)
    ensures
        run(p, first + second) == match run(p, first) {
            Ok(q) => run(q, second),
            Err(e) => Err(e),
        },
    decreases second.len(),
{
    if second.len() == 0 {
        assert(first + second =~= first);
    } else {
        assert((first + second).drop_last() =~= first + second.drop_last());
        lemma_run_concat(p, first, second.drop_last());
    }
}

/// A marker run costs nothing and leaves the label pending: a start marker
/// opens a region at the current weight; an end marker closes the innermost
/// open region, if it carries the same label, and records its weight.
pub proof fn lemma_run_marker(p: ProfilerView, label: Seq<u8>)
    requires
        p.stage == Stage::Pending,
    ensures
        run(p, marker_instructions(REGION_START, label)) == Ok::<ProfilerView, ProfilerError>(
            ProfilerView {
                pending: label_text(label),
                open_regions: p.open_regions.push((label_text(label), p.weight)),
                ..p
            },
        ),
        run(p, marker_instructions(REGION_END, label)) == if p.open_regions.len() > 0
            && p.open_regions.last().0 == label_text(label) {
            Ok::<ProfilerView, ProfilerError>(
                ProfilerView {
                    pending: label_text(label),
                    open_regions: p.open_regions.drop_last(),
                    rows: record(
                        p.rows,
                        label_text(label),
                        (p.weight - p.open_regions.last().1) as usize,
                    ),
                    ..p
                },
            )
        } else {
            Err::<ProfilerView, ProfilerError>(ProfilerError::RegionNotStarted)
        },
{
    let start = marker_instructions(REGION_START, label);
    let end = marker_instructions(REGION_END, label);
    reveal_with_fuel(run, 4);
    assert(start.drop_last() =~= seq![start[0], start[1]]);
    assert(start.drop_last().drop_last() =~= seq![start[0]]);
    assert(start.drop_last().drop_last().drop_last() =~= Seq::<InstructionView>::empty());
    assert(end.drop_last() =~= seq![end[0], end[1]]);
    assert(end.drop_last().drop_last() =~= seq![end[0]]);
    assert(end.drop_last().drop_last().drop_last() =~= Seq::<InstructionView>::empty());
}

/// Instructions outside any marker only add their weight.
pub proof fn lemma_run_plain(p: ProfilerView, body: Seq<InstructionView>)
    requires
        p.stage == Stage::Pending,
        forall|i: int| 0 <= i < body.len() ==> is_plain(#[trigger] body[i]),
    ensures
        run(p, body) == Ok::<ProfilerView, ProfilerError>(
            ProfilerView { weight: p.weight + plain_weight(body), ..p },
        ),
    decreases body.len(),
{
    if body.len() > 0 {
        assert forall|i: int| 0 <= i < body.drop_last().len() implies is_plain(
            #[trigger] body.drop_last()[i],
        ) by {
            assert(body.drop_last()[i] == body[i]);
        }
        lemma_run_plain(p, body.drop_last());
        assert(is_plain(body[body.len() - 1]));
    }
}

/// A region measures what lies between its markers: after the start marker
/// of a label, instructions outside any marker, and the end marker of the
/// same label, the histogram has recorded the weight of those instructions
/// for the label, and no region has been left open.
pub proof fn lemma_region_measures_its_body(
    p: ProfilerView,
    label: Seq<u8>,
    body: Seq<InstructionView>,
)
    requires
        p.stage == Stage::Pending,
        forall|i: int| 0 <= i < body.len() ==> is_plain(#[trigger] body[i]),
        plain_weight(body) <= usize::MAX,
    ensures
        run(
            p,
            marker_instructions(REGION_START, label) + body + marker_instructions(
                REGION_END,
                label,
            ),
        ) == Ok::<ProfilerView, ProfilerError>(
            ProfilerView {
                pending: label_text(label),
                weight: p.weight + plain_weight(body),
                rows: record(p.rows, label_text(label), plain_weight(body) as usize),
                ..p
            },
        ),
{
    let start = marker_instructions(REGION_START, label);
    let end = marker_instructions(REGION_END, label);
    let text = label_text(label);
    let opened = ProfilerView {
        pending: text,
        open_regions: p.open_regions.push((text, p.weight)),
        ..p
    };
    let measured = ProfilerView { weight: p.weight + plain_weight(body), ..opened };
    lemma_run_marker(p, label);
    lemma_run_plain(opened, body);
    lemma_run_marker(measured, label);
    lemma_run_concat(p, start, body);
    lemma_run_concat(p, start + body, end);
    assert(measured.open_regions.drop_last() =~= p.open_regions);
}

/// The label of a marker that was made for a text is that text.
pub proof fn lemma_label_of_text(text: Seq<char>)
    ensures
        label_text(encode_utf8(text)) == text,
{
    encode_utf8_valid_utf8(text);
    encode_utf8_decode_utf8(text);
}

/// The weight of an ordinary push is the number of bytes that the push
/// takes in a script.
pub proof fn lemma_push_weight_is_encoded_length(data: Seq<u8>)
    ensures
        push_encoding(data).len() == push_weight(data.len()),
{
}

/// The sum of `weights`.
pub open spec fn total_weight(weights: Seq<usize>) -> nat
    decreases weights.len(),
{
    if weights.len() == 0 {
        0
    } else {
        total_weight(weights.drop_last()) + weights.last() as nat
    }
}

/// What the weights measured for one label amount to.
#[derive(Clone, Debug, PartialEq, Eq)]
pub struct LabelStats {
    pub label: String,
    /// How many regions carried the label.
    pub occurrences: usize,
    /// The sum of their weights.
    pub total: u128,
}

impl LabelStats {
    /// Whether these are the statistics of `row`.
    pub open spec fn describes(&self, row: (Seq<char>, Seq<usize>)) -> bool {
        &&& self.label@ == row.0
        &&& self.occurrences == row.1.len()
        &&& self.total == total_weight(row.1)
    }
}

/// The sum of `weights`, in a type that holds the sum of any vector.
fn sum_weights(weights: &Vec<usize>) -> (total: u128)
    ensures
        total == total_weight(weights@),
{
    let mut total: u128 = 0;
    let mut i: usize = 0;
    while i < weights.len()
        invariant
            i <= weights@.len(),
            total == total_weight(weights@.take(i as int)),
            total <= i * usize::MAX,
        decreases weights@.len() - i,
    {
        assert(weights@.take(i + 1).drop_last() =~= weights@.take(i as int));
        assert((i + 1) * usize::MAX <= 0xffff_ffff_ffff_ffff * 0xffff_ffff_ffff_ffff
            && i * usize::MAX + usize::MAX == (i + 1) * usize::MAX) by (nonlinear_arith)
            requires
                i + 1 <= usize::MAX,
                usize::MAX <= 0xffff_ffff_ffff_ffff,
        ;
        total = total + weights[i] as u128;
        i += 1;
    }
    assert(weights@.take(i as int) =~= weights@);
    total
}

/// The profiler of one pass over a script.
pub struct Profiler {
    /// For each label, in the order in which the labels first ended a
    /// region, the weights of its regions.
    pub count: IndexMap<String, Vec<usize>>,
    stage: Stage,
    pending_string: String,
    stack: Vec<(String, usize)>,
    opcode_count: usize,
}

impl View for Profiler {
    type V = ProfilerView;

    closed spec fn view(&self) -> ProfilerView {
        ProfilerView {
            stage: self.stage,
            pending: self.pending_string@,
            open_regions: self.stack@.map_values(|r: (String, usize)| (r.0@, r.1 as nat)),
            weight: self.opcode_count as nat,
            rows: histogram_rows(self.count),
        }
    }
}

impl Profiler {
    /// The state is consistent.
    pub open spec fn wf(&self) -> bool {
        consistent(self@)
    }

    /// A profiler that has read nothing.
    pub fn new() -> (r: Self)
        ensures
            r.wf(),
            r@ == (ProfilerView {
                stage: Stage::Pending,
                pending: Seq::<char>::empty(),
                open_regions: Seq::<(Seq<char>, nat)>::empty(),
                weight: 0,
                rows: Seq::<(Seq<char>, Seq<usize>)>::empty(),
            }),
    {
        let r = Profiler {
            count: histogram_new(),
            stage: Stage::Pending,
            pending_string: String::new(),
            stack: Vec::new(),
            opcode_count: 0,
        };
        assert(r@.open_regions =~= Seq::<(Seq<char>, nat)>::empty());
        r
    }

    /// The weight of the instructions read so far.
    pub fn weight(&self) -> (w: usize)
        ensures
            w == self@.weight,
    {
        self.opcode_count
    }

    /// The histogram itself.
    pub fn counts(&self) -> (m: &IndexMap<String, Vec<usize>>)
        ensures
            histogram_rows(*m) == self@.rows,
    {
        &self.count
    }

    /// Whether the weight counter has room for `instruction`.
    pub fn has_room_for(&self, instruction: &Instruction) -> (r: bool)
        ensures
            r == (self@.weight + cost(self@.stage, instruction@) <= usize::MAX),
    {
        match instruction {
            Instruction::PushBytes(v) => {
                if self.stage != Stage::Pending {
                    true
                } else {
                    let len: usize = v.len();
                    let prefix: usize = if len <= 75 {
                        1
                    } else if len <= 255 {
                        2
                    } else if len <= 65535 {
                        3
                    } else {
                        5
                    };
                    len <= usize::MAX - prefix && self.opcode_count <= usize::MAX - prefix - len
                }
            },
            Instruction::Op(opcode) => {
                if self.stage == Stage::Pending && *opcode != region_start_opcode() && *opcode
                    != region_end_opcode() {
                    self.opcode_count < usize::MAX
                } else {
                    true
                }
            },
        }
    }

    /// Reads one instruction. An error leaves the profiler as it was.
    pub fn update(&mut self, instruction: &Instruction) -> (r: Result<(), ProfilerError>)
        requires
            old(self).wf(),
            old(self)@.weight + cost(old(self)@.stage, instruction@) <= usize::MAX,
        ensures
            final(self).wf(),
            match step(old(self)@, instruction@) {
                Ok(next) => r == Ok::<(), ProfilerError>(()) && final(self)@ == next,
                Err(e) => r == Err::<(), ProfilerError>(e) && final(self)@ == old(self)@,
            },
    {
        proof {
            lemma_step_consistent(self@, instruction@);
        }
        match instruction {
            Instruction::PushBytes(v) => {
                if self.stage == Stage::WaitingForPushbytesToStart {
                    // waive the weight units
                    self.stage = Stage::WaitingForDropToStart;
                    self.pending_string = string_from_utf8_lossy(v.as_slice());
                } else if self.stage == Stage::WaitingForPushbytesToEnd {
                    // waive the weight units
                    self.stage = Stage::WaitingForDropToEnd;
                    self.pending_string = string_from_utf8_lossy(v.as_slice());
                } else if self.stage != Stage::Pending {
                    // the discard of the marker is due
                    return Err(ProfilerError::ExpectedDrop);
                } else {
                    let len: usize = v.len();
                    self.opcode_count += len;

                    if len <= 75 {
                        // one opcode from 0x01 to 0x4b pushes
                        self.opcode_count += 1;
                    } else if len <= 255 {
                        // one byte for the length, after OP_PUSHDATA1
                        self.opcode_count += 2;
                    } else if len <= 65535 {
                        // two bytes for the length, after OP_PUSHDATA2
                        self.opcode_count += 3;
                    } else {
                        // four bytes for the length, after OP_PUSHDATA4
                        self.opcode_count += 5;
                    }
                }
                Ok(())
            },
            Instruction::Op(opcode) => {
                if self.stage == Stage::Pending {
                    if *opcode == region_start_opcode() {
                        self.stage = Stage::WaitingForPushbytesToStart;
                    } else if *opcode == region_end_opcode() {
                        self.stage = Stage::WaitingForPushbytesToEnd;
                    } else {
                        self.opcode_count += 1;
                    }
                    Ok(())
                } else if self.stage == Stage::WaitingForPushbytesToStart || self.stage
                    == Stage::WaitingForPushbytesToEnd {
                    Err(ProfilerError::ExpectedPushBytes)
                } else if *opcode != discard_opcode() {
                    Err(ProfilerError::ExpectedDrop)
                } else if self.stage == Stage::WaitingForDropToStart {
                    self.stack.push((self.pending_string.clone(), self.opcode_count));
                    self.stage = Stage::Pending;
                    assert(self@.open_regions =~= old(self)@.open_regions.push(
                        (old(self)@.pending, old(self)@.weight),
                    ));
                    Ok(())
                } else {
                    let depth: usize = self.stack.len();
                    if depth == 0 {
                        return Err(ProfilerError::RegionNotStarted);
                    }
                    assert(self@.open_regions.last() == (
                        self.stack@[depth - 1].0@,
                        self.stack@[depth - 1].1 as nat,
                    ));
                    if self.stack[depth - 1].0 != self.pending_string {
                        return Err(ProfilerError::RegionNotStarted);
                    }
                    assert(consistent(self@));
                    assert(self@.open_regions[depth - 1].1 <= self@.weight);
                    let weight: usize = self.opcode_count - self.stack[depth - 1].1;
                    match histogram_get_mut(&mut self.count, &self.pending_string) {
                        Some(counts) => {
                            counts.push(weight);
                        },
                        None => {
                            let first: Vec<usize> = vec![weight];
                            assert(first@ =~= seq![weight]);
                            histogram_insert(&mut self.count, self.pending_string.clone(), first);
                        },
                    }
                    assert(self@.rows == record(old(self)@.rows, old(self)@.pending, weight));
                    self.stack.pop();
                    self.stage = Stage::Pending;
                    assert(self@.open_regions =~= old(self)@.open_regions.drop_last());
                    Ok(())
                }
            },
        }
    }

    /// Checks that the pass ended outside any marker and with every region
    /// closed.
    pub fn complete(&mut self) -> (r: Result<(), ProfilerError>)
        ensures
            *final(self) == *old(self),
            r == if old(self)@.stage != Stage::Pending {
                Err::<(), ProfilerError>(ProfilerError::UnfinishedMarker)
            } else if old(self)@.open_regions.len() > 0 {
                Err::<(), ProfilerError>(ProfilerError::UnclosedRegion)
            } else {
                Ok::<(), ProfilerError>(())
            },
    {
        if self.stage != Stage::Pending {
            return Err(ProfilerError::UnfinishedMarker);
        }
        if self.stack.len() != 0 {
            return Err(ProfilerError::UnclosedRegion);
        }
        Ok(())
    }

    /// For each label, in the order of the histogram: how many regions
    /// carried it, and the sum of their weights.
    pub fn stats(&self) -> (r: Vec<LabelStats>)
        ensures
            r@.len() == self@.rows.len(),
            forall|i: int| 0 <= i < r@.len() ==> (#[trigger] r@[i]).describes(self@.rows[i]),
    {
        let n: usize = histogram_len(&self.count);
        let mut r: Vec<LabelStats> = Vec::new();
        let mut i: usize = 0;
        while i < n
            invariant
                i <= n,
                n == self@.rows.len(),
                r@.len() == i,
                forall|j: int| 0 <= j < i ==> (#[trigger] r@[j]).describes(self@.rows[j]),
            decreases n - i,
        {
            match histogram_get_index(&self.count, i) {
                Some((label, weights)) => {
                    r.push(
                        LabelStats {
                            label: label.clone(),
                            occurrences: weights.len(),
                            total: sum_weights(weights),
                        },
                    );
                },
                None => {},
            }
            i += 1;
        }
        r
    }
}

impl Clone for Profiler {
    fn clone(&self) -> (r: Self)
        ensures
            r@ == self@,
    {
        let mut stack: Vec<(String, usize)> = Vec::with_capacity(self.stack.len());
        let mut i: usize = 0;
        while i < self.stack.len()
            invariant
                i <= self.stack@.len(),
                stack@.len() == i,
                forall|j: int| 0 <= j < i ==> stack@[j].0@ == self.stack@[j].0@ && stack@[j].1 == self.stack@[j].1,
            decreases self.stack@.len() - i,
        {
            stack.push((self.stack[i].0.clone(), self.stack[i].1));
            i += 1;
        }
        let r = Profiler {
            count: histogram_clone(&self.count),
            stage: self.stage,
            pending_string: self.pending_string.clone(),
            stack,
            opcode_count: self.opcode_count,
        };
        assert(r@.open_regions =~= self@.open_regions);
        r
    }
}

impl Default for Profiler {
    fn default() -> (r: Self)
        ensures
            r.wf(),
            r@ == (ProfilerView {
                stage: Stage::Pending,
                pending: Seq::<char>::empty(),
                open_regions: Seq::<(Seq<char>, nat)>::empty(),
                weight: 0,
                rows: Seq::<(Seq<char>, Seq<usize>)>::empty(),
            }),
    {
        Profiler::new()
    }
}

} // verus!
