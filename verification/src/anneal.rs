//! Simulated-annealing schedules and the accept/reject bookkeeping of an anneal stage.

use vstd::prelude::*;
use crate::text::{decimal, push_str, u64_to_decimal};

verus! {

/// Length of an annealing run.
#[derive(Clone, Copy, PartialEq, Eq, Debug, Structural)]
pub enum AnnealVariant {
    Quick,
    Short,
    Full,
}

/// Stages `(epochs, games per epoch)` of the full schedule.
pub const ANNEAL_STAGES_FULL: [(usize, usize); 4] = [(10000, 100), (2000, 1000), (500, 10000), (100, 1_000_000)];
/// Stages of the short schedule.
pub const ANNEAL_STAGES_SHORT: [(usize, usize); 3] = [(500, 500), (200, 5000), (50, 50000)];
/// Stages of the quick schedule.
pub const ANNEAL_STAGES_QUICK: [(usize, usize); 3] = [(50, 500), (20, 5000), (5, 50000)];

/// The stage schedule of a variant.
pub open spec fn stages_of(v: AnnealVariant) -> Seq<(usize, usize)> {
    match v {
        AnnealVariant::Quick => seq![(50usize, 500usize), (20, 5000), (5, 50000)],
        AnnealVariant::Short => seq![(500usize, 500usize), (200, 5000), (50, 50000)],
        AnnealVariant::Full => seq![(10000usize, 100usize), (2000, 1000), (500, 10000), (100, 1_000_000)],
    }
}

/// The stage schedule `(epochs, games per epoch)` of a variant.
pub fn variant_stages(v: AnnealVariant) -> (res: &'static [(usize, usize)])
    ensures
        res@ == stages_of(v),
{
    match v {
        AnnealVariant::Quick => &ANNEAL_STAGES_QUICK,
        AnnealVariant::Short => &ANNEAL_STAGES_SHORT,
        AnnealVariant::Full => &ANNEAL_STAGES_FULL,
    }
}

/// Upper-case name of a variant, as printed in progress reports.
pub fn variant_label(v: AnnealVariant) -> (res: &'static str)
    ensures
        v == AnnealVariant::Quick ==> res@ == "QUICK"@,
        v == AnnealVariant::Short ==> res@ == "SHORT"@,
        v == AnnealVariant::Full ==> res@ == "FULL"@,
{
    match v {
        AnnealVariant::Quick => "QUICK",
        AnnealVariant::Short => "SHORT",
        AnnealVariant::Full => "FULL",
    }
}

/// Appends `n` in decimal.
fn push_decimal(s: &mut String, n: usize)
    ensures
        final(s)@ == old(s)@ + decimal(n as nat),
{
    let d = u64_to_decimal(n as u64);
    push_str(s, d.as_str());
}

/// Name of the session folder of stage `stage_idx` (counted from 0):
/// `{prefix}anneal-stage-{stage_idx + 1}-{epochs}ep-{games}g`.
pub fn stage_session_name(prefix: &str, stage_idx: usize, epochs: usize, games: usize) -> (res: String)
    requires
        stage_idx < usize::MAX,
    ensures
        res@ == prefix@ + "anneal-stage-"@ + decimal((stage_idx + 1) as nat) + "-"@ + decimal(epochs as nat)
            + "ep-"@ + decimal(games as nat) + "g"@,
{
    let mut out = String::new();
    push_str(&mut out, prefix);
    push_str(&mut out, "anneal-stage-");
    push_decimal(&mut out, stage_idx + 1);
    push_str(&mut out, "-");
    push_decimal(&mut out, epochs);
    push_str(&mut out, "ep-");
    push_decimal(&mut out, games);
    push_str(&mut out, "g");
    proof {
        assert(out@ =~= prefix@ + "anneal-stage-"@ + decimal((stage_idx + 1) as nat) + "-"@ + decimal(epochs as nat)
            + "ep-"@ + decimal(games as nat) + "g"@);
    }
    out
}

/// Session prefix of the `n`-th continuation training of a team: `s{n}-`.
pub fn continuation_prefix(n: usize) -> (res: String)
    ensures
        res@ == "s"@ + decimal(n as nat) + "-"@,
{
    let mut out = String::new();
    push_str(&mut out, "s");
    push_decimal(&mut out, n);
    push_str(&mut out, "-");
    proof {
        assert(out@ =~= "s"@ + decimal(n as nat) + "-"@);
    }
    out
}

/// Which single stage to run on a team: everything, one slot, or the goalkeeper only.
#[derive(Clone, Copy, PartialEq, Eq, Debug, Structural)]
pub enum SingleStageMode {
    Full,
    SlotOnly(usize),
    GkOnly,
}

/// Short position names of the five slots.
pub open spec fn slot_name(s: nat) -> Seq<char> {
    if s == 0 {
        "fwd"@
    } else if s == 1 {
        "mid-top"@
    } else if s == 2 {
        "mid-bot"@
    } else if s == 3 {
        "def"@
    } else {
        "gk"@
    }
}

fn slot_name_exec(s: usize) -> (res: &'static str)
    requires
        s < 5,
    ensures
        res@ == slot_name(s as nat),
{
    if s == 0 {
        "fwd"
    } else if s == 1 {
        "mid-top"
    } else if s == 2 {
        "mid-bot"
    } else if s == 3 {
        "def"
    } else {
        "gk"
    }
}

impl SingleStageMode {
    /// Slot numbers are 0..=4.
    pub open spec fn wf(&self) -> bool {
        *self matches SingleStageMode::SlotOnly(s) ==> s < 5
    }

    /// Folder (under the team's `sessions`) that the stage writes to.
    pub fn folder_name(&self) -> (res: String)
        ensures
            *self == SingleStageMode::Full ==> res@ == "single-stage"@,
            *self matches SingleStageMode::SlotOnly(s) ==> res@ == "single-stage-slot"@ + decimal(s as nat),
            *self == SingleStageMode::GkOnly ==> res@ == "single-stage-gk"@,
    {
        let mut out = String::new();
        match self {
            SingleStageMode::Full => {
                push_str(&mut out, "single-stage");
            },
            SingleStageMode::SlotOnly(s) => {
                push_str(&mut out, "single-stage-slot");
                push_decimal(&mut out, *s);
            },
            SingleStageMode::GkOnly => {
                push_str(&mut out, "single-stage-gk");
            },
        }
        proof {
            assert(Seq::<char>::empty() + "single-stage"@ =~= "single-stage"@);
            assert(Seq::<char>::empty() + "single-stage-gk"@ =~= "single-stage-gk"@);
            if let SingleStageMode::SlotOnly(s) = *self {
                assert(out@ =~= "single-stage-slot"@ + decimal(s as nat));
            }
        }
        out
    }

    /// The only slot the stage mutates, if it is restricted to one.
    pub fn slot_filter(&self) -> (res: Option<usize>)
        ensures
            *self == SingleStageMode::Full ==> res is None,
            *self matches SingleStageMode::SlotOnly(s) ==> res == Some(s),
            *self == SingleStageMode::GkOnly ==> res == Some(4usize),
    {
        match self {
            SingleStageMode::Full => None,
            SingleStageMode::SlotOnly(s) => Some(*s),
            SingleStageMode::GkOnly => Some(4),
        }
    }

    /// Description written into the team's baseline after the stage.
    pub fn description(&self, team_name: &str, epochs: usize, games: usize) -> (res: String)
        requires
            self.wf(),
        ensures
            *self == SingleStageMode::Full ==> res@ == team_name@ + ": single-stage "@ + decimal(epochs as nat)
                + "×"@ + decimal(games as nat),
            *self matches SingleStageMode::SlotOnly(s) ==> res@ == team_name@ + ": single-stage slot "@
                + decimal(s as nat) + " ("@ + slot_name(s as nat) + ") "@ + decimal(epochs as nat) + "×"@
                + decimal(games as nat),
            *self == SingleStageMode::GkOnly ==> res@ == team_name@ + ": single-stage GK-only "@
                + decimal(epochs as nat) + "×"@ + decimal(games as nat),
    {
        let mut out = String::new();
        push_str(&mut out, team_name);
        match self {
            SingleStageMode::Full => {
                push_str(&mut out, ": single-stage ");
            },
            SingleStageMode::SlotOnly(s) => {
                push_str(&mut out, ": single-stage slot ");
                push_decimal(&mut out, *s);
                push_str(&mut out, " (");
                push_str(&mut out, slot_name_exec(*s));
                push_str(&mut out, ") ");
            },
            SingleStageMode::GkOnly => {
                push_str(&mut out, ": single-stage GK-only ");
            },
        }
        push_decimal(&mut out, epochs);
        push_str(&mut out, "×");
        push_decimal(&mut out, games);
        proof {
            match *self {
                SingleStageMode::Full => {
                    assert(out@ =~= team_name@ + ": single-stage "@ + decimal(epochs as nat) + "×"@ + decimal(games as nat));
                },
                SingleStageMode::SlotOnly(s) => {
                    assert(out@ =~= team_name@ + ": single-stage slot "@ + decimal(s as nat) + " ("@ + slot_name(s as nat)
                        + ") "@ + decimal(epochs as nat) + "×"@ + decimal(games as nat));
                },
                SingleStageMode::GkOnly => {
                    assert(out@ =~= team_name@ + ": single-stage GK-only "@ + decimal(epochs as nat) + "×"@
                        + decimal(games as nat));
                },
            }
        }
        out
    }

    /// Training-method tag written into the team's baseline after the stage.
    pub fn training_method(&self) -> (res: String)
        ensures
            *self == SingleStageMode::Full ==> res@ == "single-stage-anneal"@,
            *self matches SingleStageMode::SlotOnly(s) ==> res@ == "single-stage-slot-"@ + decimal(s as nat),
            *self == SingleStageMode::GkOnly ==> res@ == "single-stage-gk-only"@,
    {
        let mut out = String::new();
        match self {
            SingleStageMode::Full => {
                push_str(&mut out, "single-stage-anneal");
            },
            SingleStageMode::SlotOnly(s) => {
                push_str(&mut out, "single-stage-slot-");
                push_decimal(&mut out, *s);
            },
            SingleStageMode::GkOnly => {
                push_str(&mut out, "single-stage-gk-only");
            },
        }
        proof {
            assert(Seq::<char>::empty() + "single-stage-anneal"@ =~= "single-stage-anneal"@);
            assert(Seq::<char>::empty() + "single-stage-gk-only"@ =~= "single-stage-gk-only"@);
            if let SingleStageMode::SlotOnly(s) = *self {
                assert(out@ =~= "single-stage-slot-"@ + decimal(s as nat));
            }
        }
        out
    }

    /// How the stage is named in the progress line.
    pub fn mode_label(&self) -> (res: String)
        ensures
            *self == SingleStageMode::Full ==> res@ == "single-stage"@,
            *self matches SingleStageMode::SlotOnly(s) ==> res@ == "single-stage SLOT-"@ + decimal(s as nat),
            *self == SingleStageMode::GkOnly ==> res@ == "single-stage GK-ONLY"@,
    {
        let mut out = String::new();
        match self {
            SingleStageMode::Full => {
                push_str(&mut out, "single-stage");
            },
            SingleStageMode::SlotOnly(s) => {
                push_str(&mut out, "single-stage SLOT-");
                push_decimal(&mut out, *s);
            },
            SingleStageMode::GkOnly => {
                push_str(&mut out, "single-stage GK-ONLY");
            },
        }
        proof {
            assert(Seq::<char>::empty() + "single-stage"@ =~= "single-stage"@);
            assert(Seq::<char>::empty() + "single-stage GK-ONLY"@ =~= "single-stage GK-ONLY"@);
            if let SingleStageMode::SlotOnly(s) = *self {
                assert(out@ =~= "single-stage SLOT-"@ + decimal(s as nat));
            }
        }
        out
    }
}

/// Whether the progress of epoch `epoch` of `epochs` is printed: the first five, every
/// tenth and the last.
pub fn should_log_epoch(epoch: usize, epochs: usize) -> (res: bool)
    ensures
        res == (epoch <= 5 || epoch % 10 == 0 || epoch == epochs),
{
    epoch <= 5 || epoch % 10 == 0 || epoch == epochs
}

/// How the mutation scale changes after an epoch.
#[derive(Clone, Copy, PartialEq, Eq, Debug, Structural)]
pub enum ScaleChange {
    /// After an accepted candidate: scale × 1.5, capped at 1.
    Grow,
    /// After every 20th rejection in a row: scale × 0.75, floored at 0.1.
    Shrink,
    /// Otherwise.
    Keep,
}

/// Rejections in a row after which the mutation scale shrinks (again).
pub const SHRINK_EVERY: usize = 20;

/// Accept/reject bookkeeping of an anneal run.
#[derive(Clone, Copy, Debug)]
pub struct AnnealProgress {
    /// Epoch of the current champion (0: the starting team).
    pub champion_epoch: usize,
    /// Candidates rejected since the last acceptance.
    pub rejection_streak: usize,
    /// Candidates accepted so far.
    pub accepted_count: usize,
}

/// The bookkeeping after the candidate of `epoch` was accepted or rejected, and the scale
/// change it calls for.
pub open spec fn progress_after(p: AnnealProgress, epoch: usize, accepted: bool) -> (AnnealProgress, ScaleChange) {
    if accepted {
        (AnnealProgress { champion_epoch: epoch, rejection_streak: 0, accepted_count: (p.accepted_count + 1) as usize },
         ScaleChange::Grow)
    } else {
        let streak = (p.rejection_streak + 1) as usize;
        (AnnealProgress { rejection_streak: streak, ..p },
         if streak % SHRINK_EVERY == 0 { ScaleChange::Shrink } else { ScaleChange::Keep })
    }
}

impl AnnealProgress {
    /// Nothing accepted or rejected yet.
    pub fn new() -> (res: AnnealProgress)
        ensures
            res.champion_epoch == 0 && res.rejection_streak == 0 && res.accepted_count == 0,
    {
        AnnealProgress { champion_epoch: 0, rejection_streak: 0, accepted_count: 0 }
    }

    /// Records the verdict on the candidate of `epoch` and returns the scale change.
    pub fn record(&mut self, epoch: usize, accepted: bool) -> (change: ScaleChange)
        requires
            old(self).rejection_streak < usize::MAX,
            old(self).accepted_count < usize::MAX,
        ensures
            (*final(self), change) == progress_after(*old(self), epoch, accepted),
            accepted ==> change == ScaleChange::Grow,
            !accepted ==> (change == ScaleChange::Shrink <==> (old(self).rejection_streak + 1) % 20 == 0),
            !accepted ==> final(self).rejection_streak == old(self).rejection_streak + 1,
    {
        if accepted {
            self.champion_epoch = epoch;
            self.rejection_streak = 0;
            self.accepted_count = self.accepted_count + 1;
            ScaleChange::Grow
        } else {
            self.rejection_streak = self.rejection_streak + 1;
            if self.rejection_streak % SHRINK_EVERY == 0 {
                ScaleChange::Shrink
            } else {
                ScaleChange::Keep
            }
        }
    }

    /// Whether the stage should end early: the rejection streak reached `threshold`.
    pub fn should_advance(&self, threshold: usize) -> (res: bool)
        ensures
            res == (self.rejection_streak >= threshold),
    {
        self.rejection_streak >= threshold
    }
}

/// Rejections in a row that end a stage of `stage_epochs` epochs early: a tenth of the
/// epochs (rounded down), but at least 50.
pub fn advance_threshold(stage_epochs: usize) -> (res: usize)
    ensures
        res == (if stage_epochs / 10 > 50 { stage_epochs / 10 } else { 50 }),
{
    let tenth = stage_epochs / 10;
    if tenth > 50 { tenth } else { 50 }
}

/// The bookkeeping after a run of verdicts, starting from `p` at epoch `first`.
pub open spec fn progress_over(p: AnnealProgress, first: usize, verdicts: Seq<bool>) -> AnnealProgress
    decreases verdicts.len(),
{
    if verdicts.len() == 0 {
        p
    } else {
        progress_over(progress_after(p, first, verdicts[0]).0, (first + 1) as usize, verdicts.drop_first())
    }
}

/// After `k` rejections in a row following an acceptance, the streak is `k`, the champion
/// is still the accepted epoch, and the scale shrinks on exactly the multiples of 20.
pub proof fn lemma_rejection_run(p: AnnealProgress, first: usize, k: nat)
    requires
        p.rejection_streak == 0,
        k < usize::MAX,
    ensures
        progress_over(p, first, Seq::new(k, |i: int| false)).rejection_streak == k,
        progress_over(p, first, Seq::new(k, |i: int| false)).champion_epoch == p.champion_epoch,
        progress_over(p, first, Seq::new(k, |i: int| false)).accepted_count == p.accepted_count,
    decreases k,
{
    if k > 0 {
        lemma_rejection_tail(p, first, k);
    }
}

proof fn lemma_rejection_tail(p: AnnealProgress, first: usize, k: nat)
    requires
        p.rejection_streak + k < usize::MAX,
    ensures
        progress_over(p, first, Seq::new(k, |i: int| false)).rejection_streak == p.rejection_streak + k,
        progress_over(p, first, Seq::new(k, |i: int| false)).champion_epoch == p.champion_epoch,
        progress_over(p, first, Seq::new(k, |i: int| false)).accepted_count == p.accepted_count,
    decreases k,
{
    if k > 0 {
        let p1 = progress_after(p, first, false).0;
        assert(Seq::new(k, |i: int| false).drop_first() =~= Seq::new((k - 1) as nat, |i: int| false));
        lemma_rejection_tail(p1, (first + 1) as usize, (k - 1) as nat);
    }
}

/// An accepted candidate always becomes the champion and clears the rejection streak.
pub proof fn lemma_accept_resets(p: AnnealProgress, epoch: usize)
    ensures
        progress_after(p, epoch, true).0.champion_epoch == epoch,
        progress_after(p, epoch, true).0.rejection_streak == 0,
        progress_after(p, epoch, true).1 == ScaleChange::Grow,
{
}

/// Shrink law: on a rejection, the mutation scale shrinks exactly when the rejection
/// streak reaches a multiple of 20 (the 20th, 40th, 60th rejection in a row, ...), and
/// is kept otherwise; an acceptance always grows it.
pub proof fn lemma_shrink_every_twentieth(p: AnnealProgress, epoch: usize, accepted: bool)
    requires
        p.rejection_streak < usize::MAX,
    ensures
        accepted ==> progress_after(p, epoch, accepted).1 == ScaleChange::Grow,
        !accepted ==> (progress_after(p, epoch, accepted).1 == ScaleChange::Shrink
            <==> (p.rejection_streak + 1) % 20 == 0),
        !accepted ==> (progress_after(p, epoch, accepted).1 == ScaleChange::Keep
            <==> (p.rejection_streak + 1) % 20 != 0),
        !accepted ==> progress_after(p, epoch, accepted).0.rejection_streak == p.rejection_streak + 1,
{
}

} // verus!
