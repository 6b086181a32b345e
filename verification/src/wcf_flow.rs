//! The course of a run of the block replacer: what comes next, given what was found and answered.

use vstd::prelude::*;
use crate::config::{is_yes, means_yes};
use crate::text::same;
use crate::wcf::{block_texts, match_texts, Block, BlockText, CodeBlockMatch, MatchText};
use crate::wcf_session::{
    place, place_of, places_like, remembered_places, show_tally, stands_at, tally_shown, word_of,
    BlockTally, Outcome, Place, PlaceText, PreviewAnswer, TallyText,
};

verus! {

/// What the program does next with the block at hand.
#[derive(Clone, Copy, Debug, PartialEq, Eq, Structural)]
pub enum Step {
    /// Show the block and ask whether to go on with it.
    Preview,
    /// Look for it in the source files.
    Scan,
    /// Have one of the matches chosen.
    Choose,
    /// Show how the block differs from its match.
    Compare,
    /// Ask whether to replace the match.
    Confirm,
    /// Replace it.
    Apply,
    /// All is done.
    Done,
}

/// A run: its blocks, how many of them are dealt with, where the last one was found, and what
/// became of them.
#[derive(Debug, PartialEq, Eq)]
pub struct Session {
    pub blocks: Vec<Block>,
    pub at: usize,
    pub last: Option<Place>,
    pub tally: BlockTally,
    pub previews: bool,
}

/// What a `Session` holds.
#[verifier::ext_equal]
pub struct SessionText {
    pub blocks: Seq<BlockText>,
    pub at: int,
    pub last: Option<PlaceText>,
    pub tally: TallyText,
    pub previews: bool,
}

impl View for Session {
    type V = SessionText;

    open spec fn view(&self) -> SessionText {
        SessionText {
            blocks: block_texts(self.blocks@),
            at: self.at as int,
            last: match self.last {
                Some(p) => Some(p@),
                None => None,
            },
            tally: self.tally@,
            previews: self.previews,
        }
    }
}

impl SessionText {
    /// Every block dealt with is listed once.
    pub open spec fn wf(self) -> bool {
        0 <= self.at <= self.blocks.len() && self.tally.total() == self.at
    }

    /// Whether a block is at hand.
    pub open spec fn is_open(self) -> bool {
        self.wf() && self.at < self.blocks.len()
    }

    /// What a block begins with.
    pub open spec fn opening(self) -> Step {
        if self.at >= self.blocks.len() {
            Step::Done
        } else if self.previews {
            Step::Preview
        } else {
            Step::Scan
        }
    }

    /// The run when the block at hand is dealt with.
    pub open spec fn closed(self, outcome: Outcome) -> SessionText {
        let b = self.blocks[self.at];
        SessionText {
            at: self.at + 1,
            tally: self.tally.with(word_of(b.1) + " "@ + b.0, outcome),
            ..self
        }
    }

    /// The run when nothing is remembered of the last block.
    pub open spec fn forgetting(self) -> SessionText {
        SessionText { last: None, ..self }
    }

    /// The run when the block at hand was found at a place.
    pub open spec fn remembering(self, p: PlaceText) -> SessionText {
        SessionText { last: Some(p), ..self }
    }

    /// Whether the place of the last block is taken for this one: they have one name, and a match
    /// stands there.
    pub open spec fn recalls(self, ms: Seq<MatchText>) -> bool {
        match self.last {
            Some(p) => p.block_name == self.blocks[self.at].0 && places_like(ms, p).len() > 0,
            None => false,
        }
    }

    /// The matches that count.
    pub open spec fn kept(self, ms: Seq<MatchText>) -> Seq<int> {
        if self.recalls(ms) {
            places_like(ms, self.last->0)
        } else {
            Seq::new(ms.len(), |i: int| i)
        }
    }

    /// The run after an answer to the preview, and what comes next.
    pub open spec fn answered(self, a: PreviewAnswer) -> (SessionText, Step) {
        match a {
            PreviewAnswer::SkipAll => (self, Step::Done),
            PreviewAnswer::Skip => {
                let next = self.closed(Outcome::Declined);
                (next, next.opening())
            },
            PreviewAnswer::Continue => (self, Step::Scan),
        }
    }

    /// The run after the search, and what comes next. A block that was not found is dealt with;
    /// a single match is taken, and so is the first at a place that is recalled.
    pub open spec fn found(self, ms: Seq<MatchText>) -> (SessionText, Step) {
        let kept = self.kept(ms);
        if kept.len() == 0 {
            let next = self.forgetting().closed(Outcome::NotFound);
            (next, next.opening())
        } else if kept.len() == 1 {
            (self.remembering(place(ms[kept[0]])), Step::Compare)
        } else if self.recalls(ms) {
            (self, Step::Compare)
        } else {
            (self.forgetting(), Step::Choose)
        }
    }

    /// The run after one of the matches was chosen, or none, and what comes next.
    pub open spec fn chosen(self, m: Option<MatchText>) -> (SessionText, Step) {
        match m {
            Some(t) => (self.remembering(place(t)), Step::Compare),
            None => {
                let next = self.closed(Outcome::Declined);
                (next, next.opening())
            },
        }
    }

    /// The run after the comparison, and what comes next.
    pub open spec fn compared(self, changed: bool) -> (SessionText, Step) {
        if changed {
            (self, Step::Confirm)
        } else {
            let next = self.closed(Outcome::Unchanged);
            (next, next.opening())
        }
    }

    /// The run after the last question, and what comes next.
    pub open spec fn confirmed(self, input: Seq<char>) -> (SessionText, Step) {
        if means_yes(input) {
            (self, Step::Apply)
        } else {
            let next = self.forgetting().closed(Outcome::Declined);
            (next, next.opening())
        }
    }

    /// The run after a match was replaced, and what comes next.
    pub open spec fn applied(self) -> (SessionText, Step) {
        let next = self.closed(Outcome::Processed);
        (next, next.opening())
    }
}

/// What became of the place of the last block.
#[derive(Clone, Copy, Debug, PartialEq, Eq, Structural)]
pub enum Recall {
    /// It was not of this name, or there was none.
    Nothing,
    /// It is taken for this block too.
    Reused,
    /// Nothing of this name stands there now.
    Lost,
}

/// What a search came to: the matches that count, by their places in the list.
#[derive(Debug, PartialEq, Eq)]
pub struct Finding {
    pub recall: Recall,
    pub kept: Vec<usize>,
    pub step: Step,
}

fn all_places(n: usize) -> (r: Vec<usize>)
    ensures
        r@.map_values(|i: usize| i as int) == Seq::new(n as nat, |i: int| i),
        forall|k: int| 0 <= k < r@.len() ==> #[trigger] r@[k] < n,
{
    let mut out: Vec<usize> = Vec::new();
    let mut i: usize = 0;
    while i < n
        invariant
            i <= n,
            out@.len() == i,
            forall|k: int| 0 <= k < i ==> #[trigger] out@[k] == k,
        decreases n - i,
    {
        out.push(i);
        i += 1;
    }
    assert(out@.map_values(|i: usize| i as int) =~= Seq::new(n as nat, |i: int| i));
    out
}

impl Session {
    /// Starts a run with the blocks of the clipboard.
    pub fn new(blocks: Vec<Block>, previews: bool) -> (r: Session)
        ensures
            r@.wf(),
            r@ == (SessionText {
                blocks: block_texts(blocks@),
                at: 0,
                last: None,
                tally: TallyText {
                    processed: Seq::empty(),
                    unchanged: Seq::empty(),
                    declined: Seq::empty(),
                    not_found: Seq::empty(),
                },
                previews,
            }),
    {
        Session { blocks, at: 0, last: None, tally: BlockTally::new(), previews }
    }

    /// What comes first for the block at hand.
    pub fn opening(&self) -> (r: Step)
        ensures
            r == self@.opening(),
    {
        if self.at >= self.blocks.len() {
            Step::Done
        } else if self.previews {
            Step::Preview
        } else {
            Step::Scan
        }
    }

    fn close(&mut self, outcome: Outcome) -> (r: Step)
        requires
            old(self)@.is_open(),
        ensures
            final(self)@ == old(self)@.closed(outcome),
            final(self)@.wf(),
            r == final(self)@.opening(),
    {
        let ghost was = self@;
        let b: &Block = &self.blocks[self.at];
        assert(was.blocks[was.at] == (b.0@, b.1, b.2@));
        assert(self.at < self.blocks.len());
        self.tally.record(b.1, b.0.as_str(), outcome);
        self.at = self.at + 1;
        assert(self@ =~= was.closed(outcome));
        self.opening()
    }

    /// Takes the answer to the preview.
    pub fn answer(&mut self, a: PreviewAnswer) -> (r: Step)
        requires
            old(self)@.is_open(),
        ensures
            (final(self)@, r) == old(self)@.answered(a),
            final(self)@.wf(),
    {
        match a {
            PreviewAnswer::SkipAll => Step::Done,
            PreviewAnswer::Skip => self.close(Outcome::Declined),
            PreviewAnswer::Continue => Step::Scan,
        }
    }

    /// Takes what the search brought.
    pub fn find(&mut self, matches: &[CodeBlockMatch]) -> (r: Finding)
        requires
            old(self)@.is_open(),
        ensures
            (final(self)@, r.step) == old(self)@.found(match_texts(matches@)),
            final(self)@.wf(),
            r.kept@.map_values(|i: usize| i as int) == old(self)@.kept(match_texts(matches@)),
            forall|k: int| 0 <= k < r.kept@.len() ==> #[trigger] r.kept@[k] < matches@.len(),
            r.recall == (match old(self)@.last {
                Some(p) => if p.block_name != old(self)@.blocks[old(self)@.at].0 {
                    Recall::Nothing
                } else if old(self)@.recalls(match_texts(matches@)) {
                    Recall::Reused
                } else {
                    Recall::Lost
                },
                None => Recall::Nothing,
            }),
    {
        let ghost was = self@;
        let ghost ms = match_texts(matches@);
        assert(was.blocks[was.at].0 == self.blocks@[self.at as int].0@);
        let mut recall: Recall = Recall::Nothing;
        let mut kept: Vec<usize> = all_places(matches.len());
        match &self.last {
            Some(p) => {
                if same(p.block_name.as_str(), self.blocks[self.at].0.as_str()) {
                    let places: Vec<usize> = remembered_places(matches, p);
                    assert(places@.map_values(|i: usize| i as int).len() == places@.len());
                    if places.len() > 0 {
                        recall = Recall::Reused;
                        kept = places;
                    } else {
                        recall = Recall::Lost;
                    }
                }
            },
            None => {},
        }
        let ghost all = kept@.map_values(|i: usize| i as int);
        assert(all == was.kept(ms));
        assert(all.len() == kept@.len());
        if kept.len() == 0 {
            self.last = None;
            assert(self@ =~= was.forgetting());
            let step: Step = self.close(Outcome::NotFound);
            return Finding { recall, kept, step };
        }
        assert(all[0] == kept@[0]);
        if kept.len() == 1 {
            assert(ms[all[0]] == matches@[kept@[0] as int]@);
            self.last = Some(place_of(&matches[kept[0]]));
            assert(self@ =~= was.remembering(place(ms[all[0]])));
            return Finding { recall, kept, step: Step::Compare };
        }
        if recall == Recall::Reused {
            return Finding { recall, kept, step: Step::Compare };
        }
        self.last = None;
        assert(self@ =~= was.forgetting());
        Finding { recall, kept, step: Step::Choose }
    }

    /// Takes the match that was chosen, if one was.
    pub fn choose_match(&mut self, m: Option<&CodeBlockMatch>) -> (r: Step)
        requires
            old(self)@.is_open(),
        ensures
            (final(self)@, r) == old(self)@.chosen(
                match m {
                    Some(t) => Some(t@),
                    None => None,
                },
            ),
            final(self)@.wf(),
    {
        let ghost was = self@;
        match m {
            Some(t) => {
                self.last = Some(place_of(t));
                assert(self@ =~= was.remembering(place(t@)));
                Step::Compare
            },
            None => self.close(Outcome::Declined),
        }
    }

    /// Takes what the comparison showed.
    pub fn compare(&mut self, changed: bool) -> (r: Step)
        requires
            old(self)@.is_open(),
        ensures
            (final(self)@, r) == old(self)@.compared(changed),
            final(self)@.wf(),
    {
        if changed {
            Step::Confirm
        } else {
            self.close(Outcome::Unchanged)
        }
    }

    /// Takes the answer to the last question.
    pub fn confirm(&mut self, input: &str) -> (r: Step)
        requires
            old(self)@.is_open(),
        ensures
            (final(self)@, r) == old(self)@.confirmed(input@),
            final(self)@.wf(),
    {
        let ghost was = self@;
        if is_yes(input) {
            return Step::Apply;
        }
        self.last = None;
        assert(self@ =~= was.forgetting());
        self.close(Outcome::Declined)
    }

    /// Takes note that the match was replaced.
    pub fn apply(&mut self) -> (r: Step)
        requires
            old(self)@.is_open(),
        ensures
            (final(self)@, r) == old(self)@.applied(),
            final(self)@.wf(),
    {
        self.close(Outcome::Processed)
    }

    /// The summary of the run.
    pub fn summary(&self) -> (r: String)
        requires
            self@.wf(),
        ensures
            r@ == tally_shown(self@.tally),
    {
        assert(self@.blocks.len() == self.blocks@.len());
        assert(self.tally.skipped() <= self@.tally.total());
        show_tally(&self.tally)
    }
}

proof fn lemma_places(ms: Seq<MatchText>, p: PlaceText, i: int)
    requires
        0 <= i < ms.len(),
        stands_at(ms[i], p),
    ensures
        places_like(ms, p).len() > 0,
    decreases ms.len(),
{
    if i < ms.len() - 1 {
        lemma_places(ms.drop_last(), p, i);
    }
}

/// A match that was chosen is taken again, without a question, for the next block of its name as
/// long as it stands where it stood: whatever became of the first block, short of a refusal.
pub proof fn law_choice_is_remembered(
    s: SessionText,
    chosen: MatchText,
    outcome: Outcome,
    later: Seq<MatchText>,
    i: int,
)
    requires
        s.is_open(),
        s.at + 1 < s.blocks.len(),
        s.blocks[s.at + 1].0 == chosen.block_name,
        0 <= i < later.len(),
        stands_at(later[i], place(chosen)),
    ensures
        ({
            let t = s.chosen(Some(chosen)).0.closed(outcome);
            &&& t.found(later).1 == Step::Compare
            &&& t.kept(later) == places_like(later, place(chosen))
        }),
{
    lemma_places(later, place(chosen), i);
}

/// However a run goes, each of its blocks is listed once: what is listed at the end is as many as
/// there were blocks.
pub proof fn law_every_block_is_listed(s: SessionText)
    requires
        s.wf(),
    ensures
        s.opening() == Step::Done ==> s.tally.total() == s.blocks.len(),
        s.is_open() ==> forall|o: Outcome|
            (#[trigger] s.closed(o)).wf() && s.closed(o).tally.total() == s.tally.total() + 1,
{
    if s.is_open() {
        assert forall|o: Outcome|
            (#[trigger] s.closed(o)).wf() && s.closed(o).tally.total() == s.tally.total() + 1 by {
            match o {
                Outcome::Processed => {},
                Outcome::Unchanged => {},
                Outcome::Declined => {},
                Outcome::NotFound => {},
            }
        }
    }
}

} // verus!
