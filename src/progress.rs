use vstd::prelude::*;

verus! {

/// Progress of one step of a synthesis: the current stage and the whole
/// run, each as done out of total.
#[derive(Debug, Clone, Copy, PartialEq, Eq, Structural)]
pub struct ProgressUpdate {
    pub stage_current: usize,
    pub stage_total: usize,
    pub total_current: usize,
    pub total_total: usize,
}

/// What a two-bar progress display shows: the length and position of the
/// overall bar and of the stage bar, and how many stages the current
/// sub-operation has gone through.
#[derive(Debug, Clone, Copy, PartialEq, Eq, Structural)]
pub struct ProgressState {
    pub total_len: usize,
    pub total_pos: usize,
    pub stage_len: usize,
    pub stage_pos: usize,
    pub stage_num: u64,
}

/// The display after an update: the bars take the update's lengths and
/// positions, and a change of the stage's total starts a new stage.
pub open spec fn after_update(s: ProgressState, u: ProgressUpdate) -> ProgressState {
    ProgressState {
        total_len: u.total_total,
        total_pos: u.total_current,
        stage_len: u.stage_total,
        stage_pos: u.stage_current,
        stage_num: if u.stage_total != s.stage_len && s.stage_num < u64::MAX {
            (s.stage_num + 1) as u64
        } else {
            s.stage_num
        },
    }
}

impl ProgressState {
    /// A display before any update: both bars 100 long, at 0.
    pub fn new() -> (r: ProgressState)
        ensures
            r == (ProgressState { total_len: 100, total_pos: 0, stage_len: 100, stage_pos: 0, stage_num: 0 }),
    {
        ProgressState { total_len: 100, total_pos: 0, stage_len: 100, stage_pos: 0, stage_num: 0 }
    }

    /// A new sub-operation begins: its stages are counted from zero.
    pub fn begin_stage(&mut self)
        ensures
            *final(self) == (ProgressState { stage_num: 0, ..*old(self) }),
    {
        self.stage_num = 0;
    }

    /// Takes in one update. Returns whether the overall bar's length and
    /// whether the stage bar's length changed.
    pub fn update(&mut self, u: ProgressUpdate) -> (r: (bool, bool))
        ensures
            *final(self) == after_update(*old(self), u),
            r == (u.total_total != old(self).total_len, u.stage_total != old(self).stage_len),
    {
        let total_changed = u.total_total != self.total_len;
        let stage_changed = u.stage_total != self.stage_len;
        if stage_changed && self.stage_num < u64::MAX {
            self.stage_num = self.stage_num + 1;
        }
        self.total_len = u.total_total;
        self.stage_len = u.stage_total;
        self.total_pos = u.total_current;
        self.stage_pos = u.stage_current;
        (total_changed, stage_changed)
    }
}

/// The display follows the updates: within one stage (the stage's total
/// unchanged), when an update does not go back on the one before, neither
/// bar goes back and the stage count stays.
pub proof fn lemma_progress_monotone(s: ProgressState, u1: ProgressUpdate, u2: ProgressUpdate)
    requires
        u1.stage_total == u2.stage_total,
        u1.total_total == u2.total_total,
        u1.stage_current <= u2.stage_current,
        u1.total_current <= u2.total_current,
    ensures
        after_update(after_update(s, u1), u2).stage_pos >= after_update(s, u1).stage_pos,
        after_update(after_update(s, u1), u2).total_pos >= after_update(s, u1).total_pos,
        after_update(after_update(s, u1), u2).stage_num == after_update(s, u1).stage_num,
{
}

} // verus!
