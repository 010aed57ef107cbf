//! The difference between the instruction streams of two functions.
//!
//! The streams are aligned by the text of their instructions alone; offsets and
//! sizes are looked up only when the result is shown.

use crate::lcs::{align, lemma_script, lemma_script_of_same, matched, script, steps, views, Edit,
    Step};
use crate::number::{dec, decimal, hex, hexadecimal, pad_front, padded_front};
use crate::pieces::{cat3, cat5, cat7};
use crate::rich_context::{FunctionEntry, Instruction};
use vstd::prelude::*;
use vstd::string::StringExecFns;

verus! {

/// What an aligned slot holds.
#[derive(Clone, Copy, PartialEq, Eq, Debug, Structural)]
pub enum Op {
    /// The same instruction text on both sides.
    Equal,
    /// An instruction of the base only.
    Delete,
    /// An instruction of the target only.
    Insert,
}

/// One aligned slot.
#[derive(Clone, Copy, PartialEq, Eq, Debug, Structural)]
pub struct DiffLine {
    pub op: Op,
    /// Which instruction of the base, for `Equal` and `Delete`.
    pub base: Option<usize>,
    /// Which instruction of the target, for `Equal` and `Insert`.
    pub target: Option<usize>,
}

impl DiffLine {
    /// Whether the slot is the one that a step of the alignment makes.
    pub open spec fn is_step(self, s: Step) -> bool {
        match (self.op, self.base, self.target, s) {
            (Op::Equal, Some(b), Some(t), Step::Both(i, j)) => b == i && t == j,
            (Op::Delete, Some(b), None, Step::Base(i)) => b == i,
            (Op::Insert, None, Some(t), Step::Target(j)) => t == j,
            _ => false,
        }
    }
}

/// An alignment of two instruction streams.
#[derive(Debug)]
pub struct Diff {
    pub lines: Vec<DiffLine>,
    /// How many slots are equal.
    pub matched: usize,
    /// How many slots there are.
    pub total: usize,
}

/// The instruction texts of a function.
pub open spec fn instruction_texts(f: FunctionEntry) -> Seq<Seq<char>> {
    f.instructions@.map_values(|i: Instruction| i.text@)
}

impl Diff {
    /// The slots are the steps of `s`, and the counts are theirs.
    pub open spec fn follows(self, s: Seq<Step>) -> bool {
        &&& self.lines@.len() == s.len()
        &&& forall|k: int| 0 <= k < s.len() ==> (#[trigger] self.lines@[k]).is_step(s[k])
        &&& self.matched == matched(s)
        &&& self.total == s.len()
    }

    /// Every slot names instructions that the two functions have.
    pub open spec fn fits(self, base: FunctionEntry, target: FunctionEntry) -> bool {
        forall|k: int|
            0 <= k < self.lines@.len() ==> {
                let l = #[trigger] self.lines@[k];
                match l.op {
                    Op::Equal => l.base is Some && l.base->0 < base.instructions@.len(),
                    Op::Delete => l.base is Some && l.base->0 < base.instructions@.len(),
                    Op::Insert => l.target is Some && l.target->0 < target.instructions@.len(),
                }
            }
    }
}

fn owned_texts(f: &FunctionEntry) -> (r: Vec<String>)
    ensures
        views(r@) == instruction_texts(*f),
{
    let mut r: Vec<String> = Vec::new();
    let mut i: usize = 0;
    while i < f.instructions.len()
        invariant
            i <= f.instructions@.len(),
            r@.len() == i,
            forall|k: int| 0 <= k < i ==> (#[trigger] r@[k])@ == f.instructions@[k].text@,
        decreases f.instructions.len() - i,
    {
        r.push(f.instructions[i].text.clone());
        i = i + 1;
    }
    assert(views(r@) =~= instruction_texts(*f));
    r
}

proof fn lemma_matched_push(s: Seq<Step>, e: Step)
    ensures
        matched(s.push(e)) == matched(s) + if e is Both {
            1nat
        } else {
            0nat
        },
    decreases s.len(),
{
    if s.len() == 0 {
        assert(s.push(e).skip(1) =~= Seq::empty());
        assert(matched(Seq::<Step>::empty()) == 0);
        assert(s.push(e)[0] == e);
    } else {
        assert(s.push(e).skip(1) =~= s.skip(1).push(e));
        assert(s.push(e)[0] == s[0]);
        lemma_matched_push(s.skip(1), e);
    }
}

/// Aligns two functions by the text of their instructions, along a longest
/// common subsequence.
pub fn diff(base: &FunctionEntry, target: &FunctionEntry) -> (d: Diff)
    ensures
        d.follows(script(instruction_texts(*base), instruction_texts(*target), 0, 0)),
        d.fits(*base, *target),
{
    let b: Vec<String> = owned_texts(base);
    let t: Vec<String> = owned_texts(target);
    let edits: Vec<Edit> = align(&b, &t);
    let ghost s = script(instruction_texts(*base), instruction_texts(*target), 0, 0);
    let mut lines: Vec<DiffLine> = Vec::new();
    let mut equal: usize = 0;
    let mut k: usize = 0;
    while k < edits.len()
        invariant
            steps(edits@) == s,
            k <= edits@.len(),
            lines@.len() == k,
            equal <= k,
            equal == matched(s.take(k as int)),
            forall|l: int| 0 <= l < k ==> (#[trigger] lines@[l]).is_step(s[l]),
        decreases edits.len() - k,
    {
        assert(s[k as int] == edits@[k as int].step());
        assert(s.take(k + 1) =~= s.take(k as int).push(s[k as int]));
        proof {
            lemma_matched_push(s.take(k as int), s[k as int]);
        }
        match edits[k] {
            Edit::Equal { base: i, target: j } => {
                lines.push(DiffLine { op: Op::Equal, base: Some(i), target: Some(j) });
                equal = equal + 1;
            },
            Edit::Delete { base: i } => {
                lines.push(DiffLine { op: Op::Delete, base: Some(i), target: None });
            },
            Edit::Insert { target: j } => {
                lines.push(DiffLine { op: Op::Insert, base: None, target: Some(j) });
            },
        }
        k = k + 1;
    }
    assert(s.take(s.len() as int) =~= s);
    let total: usize = lines.len();
    let d: Diff = Diff { lines, matched: equal, total };
    proof {
        lemma_script(instruction_texts(*base), instruction_texts(*target), 0, 0);
        assert forall|l: int| 0 <= l < d.lines@.len() implies {
            let x = #[trigger] d.lines@[l];
            match x.op {
                Op::Equal => x.base is Some && x.base->0 < base.instructions@.len(),
                Op::Delete => x.base is Some && x.base->0 < base.instructions@.len(),
                Op::Insert => x.target is Some && x.target->0 < target.instructions@.len(),
            }
        } by {
            assert(d.lines@[l].is_step(s[l]));
        }
    }
    d
}

/// Functions with the same instruction texts differ nowhere: every slot is
/// equal, and as many slots match as there are.
pub proof fn lemma_same_text_is_equal(base: FunctionEntry, target: FunctionEntry, d: Diff)
    requires
        instruction_texts(base) == instruction_texts(target),
        d.follows(script(instruction_texts(base), instruction_texts(target), 0, 0)),
    ensures
        d.matched == d.total,
        d.total == base.instructions@.len(),
        forall|k: int| 0 <= k < d.lines@.len() ==> (#[trigger] d.lines@[k]).op is Equal,
{
    let a = instruction_texts(base);
    lemma_script_of_same(a, a, 0);
    lemma_script(a, a, 0, 0);
    assert forall|k: int| 0 <= k < d.lines@.len() implies (#[trigger] d.lines@[k]).op is Equal by {
        assert(script(a, a, 0, 0)[k] is Both);
        assert(d.lines@[k].is_step(script(a, a, 0, 0)[k]));
    }
}

/// Of two functions with `n` and `m` instructions, the slots of the alignment
/// and the matched ones among them are `n + m` together.
pub proof fn lemma_total_and_matched(base: FunctionEntry, target: FunctionEntry, d: Diff)
    requires
        d.follows(script(instruction_texts(base), instruction_texts(target), 0, 0)),
    ensures
        d.total + d.matched == base.instructions@.len() + target.instructions@.len(),
{
    lemma_script(instruction_texts(base), instruction_texts(target), 0, 0);
}

// ---------------------------------------------------------------------------

/// One line of the unified view. An equal line shows no offset.
pub open spec fn unified_line(base: FunctionEntry, target: FunctionEntry, l: DiffLine) -> Seq<char> {
    match l.op {
        Op::Equal => "  "@ + base.instructions@[l.base->0 as int].text@ + "\n"@,
        Op::Delete => "- 0x"@ + pad_front(
            hex(base.instructions@[l.base->0 as int].off as nat),
            '0',
            2,
        ) + ": "@ + base.instructions@[l.base->0 as int].text@ + "\n"@,
        Op::Insert => "+ 0x"@ + pad_front(
            hex(target.instructions@[l.target->0 as int].off as nat),
            '0',
            2,
        ) + ": "@ + target.instructions@[l.target->0 as int].text@ + "\n"@,
    }
}

/// The first `n` lines of the unified view.
pub open spec fn unified_lines(
    base: FunctionEntry,
    target: FunctionEntry,
    d: Diff,
    n: int,
) -> Seq<char>
    decreases n,
{
    if n <= 0 {
        "--- base    "@ + base.name@ + "\n+++ target  "@ + target.name@ + "\n"@
    } else {
        unified_lines(base, target, d, n - 1) + unified_line(base, target, d.lines@[n - 1])
    }
}

/// The unified view: a line for each side's name, one for each slot, and one
/// with the counts.
pub open spec fn unified(
    base: FunctionEntry,
    target: FunctionEntry,
    d: Diff,
    percent: Seq<char>,
) -> Seq<char> {
    unified_lines(base, target, d, d.lines@.len() as int) + ("; "@ + dec(d.matched as nat) + "/"@
        + dec(d.total as nat) + " instructions equal ("@ + percent + "%)\n"@)
}

fn offset_text(off: u32) -> (r: String)
    ensures
        r@ == pad_front(hex(off as nat), '0', 2),
{
    padded_front(hexadecimal(off as u64).as_str(), '0', 2)
}

/// Shows an alignment line by line. `percent` is the share of equal slots, as
/// it is to be shown.
pub fn render_unified(
    base: &FunctionEntry,
    target: &FunctionEntry,
    d: &Diff,
    percent: &str,
) -> (r: String)
    requires
        d.fits(*base, *target),
    ensures
        r@ == unified(*base, *target, *d, percent@),
{
    let mut out: String = cat5(
        "--- base    ",
        base.name.as_str(),
        "\n+++ target  ",
        target.name.as_str(),
        "\n",
    );
    let mut k: usize = 0;
    while k < d.lines.len()
        invariant
            d.fits(*base, *target),
            k <= d.lines@.len(),
            out@ == unified_lines(*base, *target, *d, k as int),
        decreases d.lines.len() - k,
    {
        let l: DiffLine = d.lines[k];
        assert(d.lines@[k as int] == l);
        let text: String = match (l.op, l.base, l.target) {
            (Op::Equal, Some(i), _) => cat3("  ", base.instructions[i].text.as_str(), "\n"),
            (Op::Delete, Some(i), _) => cat5(
                "- 0x",
                offset_text(base.instructions[i].off).as_str(),
                ": ",
                base.instructions[i].text.as_str(),
                "\n",
            ),
            (Op::Insert, _, Some(j)) => cat5(
                "+ 0x",
                offset_text(target.instructions[j].off).as_str(),
                ": ",
                target.instructions[j].text.as_str(),
                "\n",
            ),
            _ => String::new(),
        };
        out.append(text.as_str());
        k = k + 1;
    }
    let summary: String = cat7(
        "; ",
        decimal(d.matched as u64).as_str(),
        "/",
        decimal(d.total as u64).as_str(),
        " instructions equal (",
        percent,
        "%)\n",
    );
    out.append(summary.as_str());
    out
}

} // verus!
