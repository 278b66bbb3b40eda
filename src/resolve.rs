//! Resolution of a descriptor into four variants, as a state machine.
//!
//! Matching and opening fonts is the caller's work. The resolver decides what
//! to ask for next and, when all four variants are open, bundles them; it
//! asks for three attribute changes on one working pattern, each derived from
//! the previous one: italic, then bold on top of it, then upright again. Any
//! failure aborts the whole resolution and hands back every font opened so
//! far, to be released.
use vstd::prelude::*;
use crate::descriptor::{Xft, serialized};
use crate::font::{Font, Metrics, cell_width_of, cell_height_of};

verus! {

/// A change to the working pattern, made before it is matched and opened.
pub enum Edit {
    /// Start from this matching string.
    Base(String),
    /// Set the slant to italic.
    SlantItalic,
    /// Set the weight to bold.
    WeightBold,
    /// Set the slant back to upright.
    SlantRoman,
}

/// What the caller is to do next.
pub enum Action<H> {
    /// Apply the edit, match the pattern, open the match (releasing the match
    /// result) and answer with the opened font.
    Open(Edit),
    /// Measure this font and answer with the measurements.
    Measure(H),
    /// Release the working pattern: here is the resolved font.
    Done(Font<H>),
    /// Release the working pattern and these fonts: resolution failed.
    Abort(Vec<H>),
}

/// The caller's answer to the last action.
pub enum Event<H> {
    Opened(H),
    Measured(Metrics),
    Failed,
}

/// Which answer the resolver waits for.
#[derive(Clone, Copy, PartialEq, Eq, Structural)]
pub enum Stage {
    Regular,
    Measure,
    Italic,
    BoldItalic,
    Bold,
    Over,
}

pub struct ResolverView<H> {
    pub stage: Stage,
    /// The fonts opened so far: regular, italic, bold-italic.
    pub opened: Seq<H>,
    pub name: Seq<char>,
    pub size: nat,
    pub metrics: Metrics,
}

pub open spec fn opened_count(stage: Stage) -> nat {
    match stage {
        Stage::Regular => 0,
        Stage::Measure => 1,
        Stage::Italic => 1,
        Stage::BoldItalic => 2,
        Stage::Bold => 3,
        Stage::Over => 0,
    }
}

impl<H> ResolverView<H> {
    pub open spec fn wf(self) -> bool {
        self.opened.len() == opened_count(self.stage)
    }

    /// The event is the answer the pending action asked for.
    pub open spec fn answers(self, ev: Event<H>) -> bool {
        match self.stage {
            Stage::Measure => ev is Measured,
            Stage::Over => false,
            _ => ev is Opened,
        }
    }

    pub open spec fn with(self, stage: Stage, opened: Seq<H>, metrics: Metrics) -> ResolverView<H> {
        ResolverView { stage, opened, name: self.name, size: self.size, metrics }
    }

    /// The state after the event.
    pub open spec fn next(self, ev: Event<H>) -> ResolverView<H> {
        if !self.answers(ev) {
            self.with(Stage::Over, Seq::empty(), self.metrics)
        } else {
            match ev {
                Event::Measured(m) => self.with(Stage::Italic, self.opened, m),
                Event::Opened(h) => match self.stage {
                    Stage::Regular => self.with(Stage::Measure, self.opened.push(h), self.metrics),
                    Stage::Italic => self.with(Stage::BoldItalic, self.opened.push(h), self.metrics),
                    Stage::BoldItalic => self.with(Stage::Bold, self.opened.push(h), self.metrics),
                    _ => self.with(Stage::Over, Seq::empty(), self.metrics),
                },
                Event::Failed => self,
            }
        }
    }

    /// The font that the last answer, `bold`, completes.
    pub open spec fn completes(self, bold: H, f: Font<H>) -> bool {
        &&& f@.name == self.name
        &&& f@.size == self.size
        &&& f@.width == cell_width_of(self.metrics.advance as nat)
        &&& f@.height == cell_height_of(self.metrics)
        &&& f@.ascent == self.metrics.ascent
        &&& f@.regular == self.opened[0]
        &&& f@.italic == self.opened[1]
        &&& f@.bold_italic == self.opened[2]
        &&& f@.bold == bold
    }

    /// The action owed for the event.
    pub open spec fn reply(self, ev: Event<H>, a: Action<H>) -> bool {
        if !self.answers(ev) {
            a is Abort && a->Abort_0@ == self.opened
        } else {
            match ev {
                Event::Measured(m) => a is Open && a->Open_0 is SlantItalic,
                Event::Opened(h) => match self.stage {
                    Stage::Regular => a is Measure && a->Measure_0 == h,
                    Stage::Italic => a is Open && a->Open_0 is WeightBold,
                    Stage::BoldItalic => a is Open && a->Open_0 is SlantRoman,
                    _ => a is Done && self.completes(h, a->Done_0),
                },
                Event::Failed => false,
            }
        }
    }
}

/// A resolution in progress.
pub struct Resolver<H> {
    xft: Xft,
    stage: Stage,
    opened: Vec<H>,
    metrics: Metrics,
}

impl<H> View for Resolver<H> {
    type V = ResolverView<H>;

    closed spec fn view(&self) -> ResolverView<H> {
        ResolverView {
            stage: self.stage,
            opened: self.opened@,
            name: self.xft.name@,
            size: self.xft.size as nat,
            metrics: self.metrics,
        }
    }
}

impl<H: Copy> Resolver<H> {
    /// Begins resolving `xft`: the first action opens the regular variant
    /// from the canonical matching string.
    pub fn start(xft: Xft) -> (r: (Resolver<H>, Action<H>))
        ensures
            r.0@.wf(),
            r.0@.stage == Stage::Regular,
            r.0@.name == xft.name@,
            r.0@.size == xft.size,
            r.1 is Open,
            r.1->Open_0 is Base,
            r.1->Open_0->Base_0@ == serialized(xft.name@, xft.size as nat),
    {
        let pattern = xft.serialize();
        let r = Resolver {
            xft,
            stage: Stage::Regular,
            opened: Vec::new(),
            metrics: Metrics { advance: 0, ascent: 0, descent: 0 },
        };
        (r, Action::Open(Edit::Base(pattern)))
    }

    /// Takes the answer to the last action and gives the next one.
    pub fn step(self, ev: Event<H>) -> (r: (Resolver<H>, Action<H>))
        requires
            self@.wf(),
        ensures
            r.0@ == self@.next(ev),
            r.0@.wf(),
            self@.reply(ev, r.1),
    {
        let Resolver { xft, stage, mut opened, metrics } = self;
        match (stage, ev) {
            (Stage::Regular, Event::Opened(h)) => {
                opened.push(h);
                (Resolver { xft, stage: Stage::Measure, opened, metrics }, Action::Measure(h))
            },
            (Stage::Measure, Event::Measured(m)) => {
                (
                    Resolver { xft, stage: Stage::Italic, opened, metrics: m },
                    Action::Open(Edit::SlantItalic),
                )
            },
            (Stage::Italic, Event::Opened(h)) => {
                opened.push(h);
                (
                    Resolver { xft, stage: Stage::BoldItalic, opened, metrics },
                    Action::Open(Edit::WeightBold),
                )
            },
            (Stage::BoldItalic, Event::Opened(h)) => {
                opened.push(h);
                (
                    Resolver { xft, stage: Stage::Bold, opened, metrics },
                    Action::Open(Edit::SlantRoman),
                )
            },
            (Stage::Bold, Event::Opened(h)) => {
                let regular = opened[0];
                let italic = opened[1];
                let bold_italic = opened[2];
                let name = xft.name.clone();
                let size = xft.size;
                let font = Font::new(xft, regular, h, italic, bold_italic, metrics);
                let done = Resolver {
                    xft: Xft { name, size },
                    stage: Stage::Over,
                    opened: Vec::new(),
                    metrics,
                };
                assert(done@ =~= self@.next(ev));
                (done, Action::Done(font))
            },
            (_, _) => {
                let done = Resolver { xft, stage: Stage::Over, opened: Vec::new(), metrics };
                assert(done@ =~= self@.next(ev));
                (done, Action::Abort(opened))
            },
        }
    }
}

/// A failure anywhere hands back every font opened so far and ends the
/// resolution; after that, nothing more is opened or produced.
pub proof fn lemma_failure_releases_all<H>(
    s: ResolverView<H>,
    ev: Event<H>,
    a: Action<H>,
    ev2: Event<H>,
    a2: Action<H>,
)
    requires
        s.wf(),
        !s.answers(ev),
        s.reply(ev, a),
        s.next(ev).reply(ev2, a2),
    ensures
        a is Abort,
        a->Abort_0@ == s.opened,
        s.next(ev).stage == Stage::Over,
        s.next(ev).opened.len() == 0,
        a2 is Abort,
        a2->Abort_0@.len() == 0,
{
}

/// When opening the italic variant fails, no font comes out and the regular
/// variant, the only one opened, is handed back for release.
pub proof fn lemma_italic_failure_is_atomic<H>(s: ResolverView<H>, a: Action<H>)
    requires
        s.wf(),
        s.stage == Stage::Italic,
        s.reply(Event::Failed, a),
    ensures
        a is Abort,
        a->Abort_0@ == s.opened,
        a->Abort_0@.len() == 1,
        s.next(Event::Failed).opened.len() == 0,
{
}

/// A resolution completes with a cell at least one pixel wide and high,
/// provided the regular variant measured some advance and some height.
pub proof fn lemma_done_cell_positive<H>(s: ResolverView<H>, h: H, a: Action<H>)
    requires
        s.wf(),
        s.stage == Stage::Bold,
        s.metrics.advance >= 1,
        s.metrics.ascent + s.metrics.descent >= 1,
        s.reply(Event::Opened(h), a),
    ensures
        a is Done,
        a->Done_0@.width >= 1,
        a->Done_0@.height >= 1,
{
}

} // verus!
