//! Live SMB mounts, and bringing back those whose session is dead.
//!
//! Presence in the mount table is not liveness: a mount whose server dropped
//! the session is still listed. A pass over the table probes each listed
//! mount; one that is stale, hangs or is missing is force-released
//! (`umount -lf`) and accessed again, so that it is re-established.
use vstd::prelude::*;
use vstd::string::*;
use crate::error::SmbError;
use crate::storage::{OutcomeView, RecoverOutcome};
use crate::{seqs, storage, text};
use crate::tool::{no_args, push_arg, ToolCommand};

verus! {

/// The filesystem types of SMB mounts in the kernel's mount table.
pub const SMB_FSTYPES: [&'static str; 3] = ["cifs", "smb3", "smbfs"];

/// The filesystem types of SMB mounts.
pub open spec fn smb_fstypes() -> Seq<Seq<char>> {
    seq!["cifs"@, "smb3"@, "smbfs"@]
}

/// One entry of the kernel's mount table.
#[derive(Debug, Clone, PartialEq, Eq)]
pub struct MountEntry {
    pub source: String,
    pub mountpoint: String,
    pub fstype: String,
}

/// The SMB entries of a mount table, in order.
pub open spec fn smb_entries(table: Seq<MountEntry>) -> Seq<MountEntry> {
    table.filter(|m: MountEntry| smb_fstypes().contains(m.fstype@))
}

/// Whether a filesystem type is one of SMB's.
pub fn is_smb_fstype(fstype: &str) -> (r: bool)
    ensures
        r == smb_fstypes().contains(fstype@),
{
    let mut i: usize = 0;
    while i < 3
        invariant
            i <= 3,
            forall|j: int| 0 <= j < i ==> smb_fstypes()[j] != fstype@,
        decreases 3 - i,
    {
        assert(SMB_FSTYPES@[i as int]@ == smb_fstypes()[i as int]);
        if text::same_text(SMB_FSTYPES[i], fstype) {
            return true;
        }
        i += 1;
    }
    false
}

/// A second copy of a mount entry.
fn copy_entry(m: &MountEntry) -> (r: MountEntry)
    ensures
        r == *m,
{
    MountEntry {
        source: m.source.clone(),
        mountpoint: m.mountpoint.clone(),
        fstype: m.fstype.clone(),
    }
}

/// The SMB mounts in a mount table, or the I/O error, by its message, that
/// kept the table from being read.
pub fn list_mounts(table: Result<Vec<MountEntry>, String>) -> (r: Result<
    Vec<MountEntry>,
    SmbError,
>)
    ensures
        match table {
            Ok(entries) => r matches Ok(mounts) && mounts@ == smb_entries(entries@),
            Err(m) => r == Err::<Vec<MountEntry>, SmbError>(SmbError::Io(m)),
        },
{
    let entries = match table {
        Ok(entries) => entries,
        Err(m) => {
            return Err(SmbError::Io(m));
        },
    };
    let mut mounts: Vec<MountEntry> = Vec::new();
    let mut i: usize = 0;
    assert(smb_entries(entries@.take(0)) =~= Seq::empty()) by {
        reveal(Seq::filter);
    }
    while i < entries.len()
        invariant
            i <= entries@.len(),
            mounts@ == smb_entries(entries@.take(i as int)),
        decreases entries@.len() - i,
    {
        let ghost longer = entries@.take(i + 1);
        proof {
            reveal(Seq::filter);
            assert(longer.drop_last() =~= entries@.take(i as int));
            assert(longer.last() == entries@[i as int]);
        }
        if is_smb_fstype(entries[i].fstype.as_str()) {
            mounts.push(copy_entry(&entries[i]));
        }
        i += 1;
    }
    assert(entries@.take(entries@.len() as int) =~= entries@);
    Ok(mounts)
}

// ---------------------------------------------------------------------------
// One mount
// ---------------------------------------------------------------------------

/// What a time-bounded probe of a mountpoint found.
#[derive(Debug, Clone, Copy, PartialEq, Eq, Structural)]
pub enum Health {
    Healthy,
    Stale,
    Timeout,
    Missing,
    /// An error that says nothing about the mount.
    Error,
}

/// Whether a probe found a mount that has to be brought back.
pub open spec fn is_dead(h: Health) -> bool {
    h == Health::Stale || h == Health::Timeout || h == Health::Missing
}

/// How to force-release a wedged mount: a lazy, forced unmount detaches even
/// one whose server is unreachable.
pub fn release_command(mountpoint: &str) -> (c: ToolCommand)
    ensures
        c.tool == "umount",
        c.args.deep_view() == seq!["-lf"@, "--"@, mountpoint@],
{
    let mut args = no_args();
    push_arg(&mut args, "-lf");
    push_arg(&mut args, "--");
    push_arg(&mut args, mountpoint);
    assert(args.deep_view() =~= seq!["-lf"@, "--"@, mountpoint@]);
    ToolCommand { tool: "umount", args }
}

/// How to have a released mount re-established: by accessing it.
pub fn retrigger_command(mountpoint: &str) -> (c: ToolCommand)
    ensures
        c.tool == "stat",
        c.args.deep_view() == seq!["--"@, mountpoint@],
{
    let mut args = no_args();
    push_arg(&mut args, "--");
    push_arg(&mut args, mountpoint);
    assert(args.deep_view() =~= seq!["--"@, mountpoint@]);
    ToolCommand { tool: "stat", args }
}

/// What came of running a tool.
#[derive(Debug, Clone, PartialEq, Eq)]
pub enum ToolAttempt {
    /// The tool is not on the `PATH`.
    NotFound,
    /// The tool ran and succeeded.
    Succeeded,
    /// The tool ran and failed.
    Failed(SmbError),
}

/// What a release attempt leaves to report.
pub open spec fn release_errors(mountpoint: Seq<char>, a: ToolAttempt) -> Seq<Seq<char>> {
    match a {
        ToolAttempt::NotFound => seq!["release: umount not found on PATH"@],
        ToolAttempt::Succeeded => Seq::empty(),
        ToolAttempt::Failed(e) => seq!["release "@ + mountpoint + ": "@ + e.message()],
    }
}

/// What a retrigger attempt leaves to report. Retriggering is best effort: a
/// missing tool is not an error.
pub open spec fn retrigger_errors(mountpoint: Seq<char>, a: ToolAttempt) -> Seq<Seq<char>> {
    match a {
        ToolAttempt::NotFound => Seq::empty(),
        ToolAttempt::Succeeded => Seq::empty(),
        ToolAttempt::Failed(e) => seq!["retrigger "@ + mountpoint + ": "@ + e.message()],
    }
}

/// `what mountpoint: message`
fn attempt_error(what: &str, mountpoint: &str, e: &SmbError) -> (s: String)
    ensures
        s@ == what@ + mountpoint@ + ": "@ + e.message(),
{
    let mut s = what.to_string();
    s.append(mountpoint);
    s.append(": ");
    s.append(e.to_string().as_str());
    s
}

/// What came of force-releasing a mount (`release`, see [`release_command`])
/// and accessing it again (`retrigger`, see [`retrigger_command`]), in that
/// order, when a probe afterwards found `health`: whether the mount is back,
/// and the errors on the way.
pub fn force_and_retrigger(
    mountpoint: &str,
    release: &ToolAttempt,
    retrigger: &ToolAttempt,
    health: Health,
) -> (r: (bool, Vec<String>))
    ensures
        r.0 == (health == Health::Healthy),
        r.1.deep_view() == release_errors(mountpoint@, *release) + retrigger_errors(
            mountpoint@,
            *retrigger,
        ),
{
    let mut errors = no_args();
    match release {
        ToolAttempt::NotFound => {
            push_arg(&mut errors, "release: umount not found on PATH");
        },
        ToolAttempt::Succeeded => {},
        ToolAttempt::Failed(e) => {
            push_arg(&mut errors, attempt_error("release ", mountpoint, e).as_str());
        },
    }
    assert(errors.deep_view() =~= release_errors(mountpoint@, *release));
    if let ToolAttempt::Failed(e) = retrigger {
        push_arg(&mut errors, attempt_error("retrigger ", mountpoint, e).as_str());
    }
    assert(errors.deep_view() =~= release_errors(mountpoint@, *release) + retrigger_errors(
        mountpoint@,
        *retrigger,
    ));
    (health == Health::Healthy, errors)
}

/// How far a release has come, and what came of each step.
#[derive(Debug, Clone, PartialEq, Eq)]
pub enum ReleaseState {
    Begun,
    Released { release: ToolAttempt },
    Retriggered { release: ToolAttempt, retrigger: ToolAttempt },
    Probed { release: ToolAttempt, retrigger: ToolAttempt, health: Health },
}

/// What a release has to do next.
#[derive(Debug, Clone, PartialEq, Eq)]
pub enum ReleaseStep {
    /// Run the tool that force-releases the mount; what came of it goes to
    /// [`ReleaseRun::on_attempt`].
    Release(ToolCommand),
    /// Run the tool that accesses the mount; what came of it goes to
    /// [`ReleaseRun::on_attempt`].
    Retrigger(ToolCommand),
    /// Probe the mountpoint; the finding goes to [`ReleaseRun::on_probe`].
    Probe,
    /// Nothing: whether the mount is back, and the errors on the way.
    Done(bool, Vec<String>),
}

/// The contents of a [`ReleaseStep`].
pub enum ReleaseStepView {
    Release { tool: Seq<char>, args: Seq<Seq<char>> },
    Retrigger { tool: Seq<char>, args: Seq<Seq<char>> },
    Probe,
    Done { recovered: bool, errors: Seq<Seq<char>> },
}

impl DeepView for ReleaseStep {
    type V = ReleaseStepView;

    open spec fn deep_view(&self) -> ReleaseStepView {
        match self {
            ReleaseStep::Release(c) => ReleaseStepView::Release {
                tool: c.tool@,
                args: c.args.deep_view(),
            },
            ReleaseStep::Retrigger(c) => ReleaseStepView::Retrigger {
                tool: c.tool@,
                args: c.args.deep_view(),
            },
            ReleaseStep::Probe => ReleaseStepView::Probe,
            ReleaseStep::Done(recovered, errors) => ReleaseStepView::Done {
                recovered: *recovered,
                errors: errors.deep_view(),
            },
        }
    }
}

/// What a release has to do next: release the mount, access it again whatever
/// came of that, and probe it once.
pub open spec fn release_step(mountpoint: Seq<char>, s: ReleaseState) -> ReleaseStepView {
    match s {
        ReleaseState::Begun => ReleaseStepView::Release {
            tool: "umount"@,
            args: seq!["-lf"@, "--"@, mountpoint],
        },
        ReleaseState::Released { .. } => ReleaseStepView::Retrigger {
            tool: "stat"@,
            args: seq!["--"@, mountpoint],
        },
        ReleaseState::Retriggered { .. } => ReleaseStepView::Probe,
        ReleaseState::Probed { release, retrigger, health } => ReleaseStepView::Done {
            recovered: health == Health::Healthy,
            errors: release_errors(mountpoint, release) + retrigger_errors(mountpoint, retrigger),
        },
    }
}

/// A release after a tool was run. One that waits for no tool stays as it is.
pub open spec fn release_attempted(s: ReleaseState, a: ToolAttempt) -> ReleaseState {
    match s {
        ReleaseState::Begun => ReleaseState::Released { release: a },
        ReleaseState::Released { release } => ReleaseState::Retriggered { release, retrigger: a },
        _ => s,
    }
}

/// A release after a probe. One that waits for no probe stays as it is.
pub open spec fn release_probed(s: ReleaseState, h: Health) -> ReleaseState {
    match s {
        ReleaseState::Retriggered { release, retrigger } => ReleaseState::Probed {
            release,
            retrigger,
            health: h,
        },
        _ => s,
    }
}

/// The release of one wedged mount in progress.
#[derive(Debug, Clone, PartialEq, Eq)]
pub struct ReleaseRun {
    pub mountpoint: String,
    pub state: ReleaseState,
}

impl ReleaseRun {
    /// A release of the mount at `mountpoint` that has not begun.
    pub fn new(mountpoint: &str) -> (run: ReleaseRun)
        ensures
            run.mountpoint@ == mountpoint@,
            run.state == ReleaseState::Begun,
    {
        ReleaseRun { mountpoint: mountpoint.to_string(), state: ReleaseState::Begun }
    }

    /// What to do next.
    pub fn next_step(&self) -> (step: ReleaseStep)
        ensures
            step.deep_view() == release_step(self.mountpoint@, self.state),
    {
        let mountpoint = self.mountpoint.as_str();
        match &self.state {
            ReleaseState::Begun => ReleaseStep::Release(release_command(mountpoint)),
            ReleaseState::Released { .. } => ReleaseStep::Retrigger(retrigger_command(mountpoint)),
            ReleaseState::Retriggered { .. } => ReleaseStep::Probe,
            ReleaseState::Probed { release, retrigger, health } => {
                let (recovered, errors) = force_and_retrigger(
                    mountpoint,
                    release,
                    retrigger,
                    *health,
                );
                ReleaseStep::Done(recovered, errors)
            },
        }
    }

    /// Takes what came of running the tool that the last step named.
    pub fn on_attempt(self, attempt: ToolAttempt) -> (run: ReleaseRun)
        ensures
            run.mountpoint == self.mountpoint,
            run.state == release_attempted(self.state, attempt),
    {
        let state = match self.state {
            ReleaseState::Begun => ReleaseState::Released { release: attempt },
            ReleaseState::Released { release } => ReleaseState::Retriggered {
                release,
                retrigger: attempt,
            },
            other => other,
        };
        ReleaseRun { mountpoint: self.mountpoint, state }
    }

    /// Takes what the probe found.
    pub fn on_probe(self, health: Health) -> (run: ReleaseRun)
        ensures
            run.mountpoint == self.mountpoint,
            run.state == release_probed(self.state, health),
    {
        let state = match self.state {
            ReleaseState::Retriggered { release, retrigger } => ReleaseState::Probed {
                release,
                retrigger,
                health,
            },
            other => other,
        };
        ReleaseRun { mountpoint: self.mountpoint, state }
    }
}

// ---------------------------------------------------------------------------
// Which mounts are watched
// ---------------------------------------------------------------------------

/// Whether a watched path covers a mountpoint: the path itself, or a path
/// below it.
pub open spec fn covers(watched: Seq<char>, mountpoint: Seq<char>) -> bool {
    &&& watched.is_prefix_of(mountpoint)
    &&& mountpoint.len() > watched.len() ==> mountpoint[watched.len() as int] == '/'
}

/// Whether a mountpoint is watched. Watching nothing in particular is watching
/// everything.
pub open spec fn is_watched(watch: Seq<Seq<char>>, mountpoint: Seq<char>) -> bool {
    watch.len() == 0 || exists|i: int| 0 <= i < watch.len() && covers(#[trigger] watch[i], mountpoint)
}

/// The watched mountpoints among mounts, in order.
pub open spec fn targets(mounts: Seq<MountEntry>, watch: Seq<Seq<char>>) -> Seq<Seq<char>> {
    mounts.map_values(|m: MountEntry| m.mountpoint@).filter(|p: Seq<char>| is_watched(watch, p))
}

/// Whether a watched path covers a mountpoint.
fn path_covers(watched: &Vec<char>, mountpoint: &Vec<char>) -> (r: bool)
    ensures
        r == covers(watched@, mountpoint@),
{
    if watched.len() > mountpoint.len() {
        return false;
    }
    let mut i: usize = 0;
    while i < watched.len()
        invariant
            i <= watched@.len() <= mountpoint@.len(),
            forall|j: int| 0 <= j < i ==> watched@[j] == mountpoint@[j],
        decreases watched@.len() - i,
    {
        if watched[i] != mountpoint[i] {
            assert(mountpoint@.subrange(0, watched@.len() as int)[i as int] == mountpoint@[i as int]);
            return false;
        }
        i += 1;
    }
    assert(watched@ =~= mountpoint@.subrange(0, watched@.len() as int));
    mountpoint.len() == watched.len() || mountpoint[watched.len()] == '/'
}

/// Whether a mountpoint is watched.
pub fn watches(watch: &Vec<String>, mountpoint: &str) -> (r: bool)
    ensures
        r == is_watched(watch.deep_view(), mountpoint@),
{
    if watch.len() == 0 {
        return true;
    }
    let path = text::to_chars(mountpoint);
    let mut i: usize = 0;
    while i < watch.len()
        invariant
            i <= watch@.len(),
            path@ == mountpoint@,
            forall|j: int| 0 <= j < i ==> !covers(#[trigger] watch.deep_view()[j], mountpoint@),
        decreases watch@.len() - i,
    {
        assert(watch.deep_view()[i as int] == watch[i as int]@);
        if path_covers(&text::to_chars(watch[i].as_str()), &path) {
            return true;
        }
        i += 1;
    }
    false
}

// ---------------------------------------------------------------------------
// A pass over all mounts
// ---------------------------------------------------------------------------

/// What a recovery pass has to do next.
#[derive(Debug, Clone, PartialEq, Eq)]
pub enum RecoverAction {
    /// Probe the mountpoint; the finding goes to [`Recovery::on_probe`].
    Probe(String),
    /// Release the mountpoint, as a [`ReleaseRun`] says; what it is done with
    /// goes to [`Recovery::on_release`].
    Release(String),
    /// Nothing: [`Recovery::finish`] gives the outcome.
    Finish,
}

/// A recovery pass in progress.
#[derive(Debug)]
pub struct Recovery {
    targets: Vec<String>,
    done: usize,
    releasing: bool,
    outcome: RecoverOutcome,
}

/// The contents of a [`Recovery`].
#[verifier::ext_equal]
pub struct RecoveryView {
    /// The mountpoints that are not done with, the current one first.
    pub pending: Seq<Seq<char>>,
    /// Whether the current mountpoint is dead and has to be released.
    pub releasing: bool,
    pub outcome: OutcomeView,
}

/// A pass over mountpoints that has not begun.
pub open spec fn start(targets: Seq<Seq<char>>) -> RecoveryView {
    RecoveryView { pending: targets, releasing: false, outcome: storage::empty_outcome() }
}

/// The pass after a probe of the current mountpoint. A healthy mount is left
/// alone, and so is one whose probe says nothing about it; a dead one has to
/// be released.
pub open spec fn probed(v: RecoveryView, h: Health) -> RecoveryView {
    if is_dead(h) {
        RecoveryView { releasing: true, ..v }
    } else if h == Health::Healthy {
        RecoveryView { pending: v.pending.skip(1), ..v }
    } else {
        RecoveryView {
            pending: v.pending.skip(1),
            outcome: OutcomeView {
                errors: v.outcome.errors.push(probe_error(v.pending[0])),
                ..v.outcome
            },
            ..v
        }
    }
}

/// The error for a probe that says nothing about its mount.
pub open spec fn probe_error(mountpoint: Seq<char>) -> Seq<char> {
    "probe "@ + mountpoint + ": indeterminate error, left untouched"@
}

/// The pass after the current mountpoint was released and retriggered.
pub open spec fn released(
    v: RecoveryView,
    recovered: bool,
    errors: Seq<Seq<char>>,
) -> RecoveryView {
    RecoveryView {
        pending: v.pending.skip(1),
        releasing: false,
        outcome: OutcomeView {
            recovered: if recovered {
                v.outcome.recovered.push(v.pending[0])
            } else {
                v.outcome.recovered
            },
            still_stale: if recovered {
                v.outcome.still_stale
            } else {
                v.outcome.still_stale.push(v.pending[0])
            },
            errors: v.outcome.errors + errors,
            ..v.outcome
        },
    }
}

/// The outcome of a pass that is over.
pub open spec fn finished(o: OutcomeView) -> OutcomeView {
    OutcomeView { no_stale_found: o.recovered.len() == 0 && o.still_stale.len() == 0, ..o }
}

impl DeepView for Recovery {
    type V = RecoveryView;

    closed spec fn deep_view(&self) -> RecoveryView {
        RecoveryView {
            pending: self.targets.deep_view().skip(self.done as int),
            releasing: self.releasing,
            outcome: self.outcome.deep_view(),
        }
    }
}

impl Recovery {
    /// What holds of every pass in progress: a mountpoint that has to be
    /// released is still there.
    pub closed spec fn wf(&self) -> bool {
        &&& self.done <= self.targets@.len()
        &&& self.releasing ==> self.done < self.targets@.len()
    }

    /// What to do next.
    pub fn next_action(&self) -> (a: RecoverAction)
        requires
            self.wf(),
        ensures
            ({
                let v = self.deep_view();
                if v.pending.len() == 0 {
                    a == RecoverAction::Finish
                } else if v.releasing {
                    a matches RecoverAction::Release(p) && p@ == v.pending[0]
                } else {
                    a matches RecoverAction::Probe(p) && p@ == v.pending[0]
                }
            }),
    {
        if self.done == self.targets.len() {
            return RecoverAction::Finish;
        }
        let mountpoint = self.targets[self.done].clone();
        if self.releasing {
            RecoverAction::Release(mountpoint)
        } else {
            RecoverAction::Probe(mountpoint)
        }
    }

    /// Takes what a probe of the current mountpoint found.
    pub fn on_probe(&mut self, h: Health)
        requires
            old(self).wf(),
            old(self).deep_view().pending.len() > 0,
            !old(self).deep_view().releasing,
        ensures
            final(self).wf(),
            final(self).deep_view() == probed(old(self).deep_view(), h),
    {
        let ghost before = self.deep_view();
        assert(self.done < self.targets.len());
        match h {
            Health::Stale | Health::Timeout | Health::Missing => {
                self.releasing = true;
            },
            Health::Healthy => {
                self.done += 1;
            },
            Health::Error => {
                let mut e = "probe ".to_string();
                e.append(self.targets[self.done].as_str());
                e.append(": indeterminate error, left untouched");
                assert(e@ == probe_error(before.pending[0]));
                push_arg(&mut self.outcome.errors, e.as_str());
                self.done += 1;
            },
        }
        assert(self.deep_view() =~= probed(before, h));
    }

    /// Takes what came of releasing and retriggering the current mountpoint.
    pub fn on_release(&mut self, recovered: bool, errors: Vec<String>)
        requires
            old(self).wf(),
            old(self).deep_view().releasing,
        ensures
            final(self).wf(),
            final(self).deep_view() == released(old(self).deep_view(), recovered, errors.deep_view()),
    {
        let ghost before = self.deep_view();
        assert(self.done < self.targets.len());
        let ghost errors_before = self.outcome.errors.deep_view();
        let mut errors = errors;
        let ghost more = errors.deep_view();
        self.outcome.errors.append(&mut errors);
        assert(self.outcome.errors.deep_view() =~= errors_before + more);
        let mountpoint = self.targets[self.done].clone();
        assert(mountpoint@ == before.pending[0]);
        if recovered {
            push_arg(&mut self.outcome.recovered, mountpoint.as_str());
        } else {
            push_arg(&mut self.outcome.still_stale, mountpoint.as_str());
        }
        self.done += 1;
        self.releasing = false;
        assert(self.deep_view() =~= released(before, recovered, more));
    }

    /// The outcome of a pass that is over.
    pub fn finish(self) -> (o: RecoverOutcome)
        requires
            self.wf(),
            self.deep_view().pending.len() == 0,
        ensures
            o.deep_view() == finished(self.deep_view().outcome),
    {
        let no_stale_found = self.outcome.recovered.len() == 0 && self.outcome.still_stale.len()
            == 0;
        RecoverOutcome {
            recovered: self.outcome.recovered,
            still_stale: self.outcome.still_stale,
            errors: self.outcome.errors,
            no_stale_found,
        }
    }
}

/// Begins a recovery pass over the watched SMB mounts of a mount table. Only
/// a table that could not be read is fatal.
pub fn recover_stale_mounts(
    table: Result<Vec<MountEntry>, String>,
    watch: &Vec<String>,
) -> (r: Result<Recovery, SmbError>)
    ensures
        match table {
            Ok(entries) => r matches Ok(pass) && pass.wf() && pass.deep_view() == start(
                targets(smb_entries(entries@), watch.deep_view()),
            ),
            Err(m) => r == Err::<Recovery, SmbError>(SmbError::Io(m)),
        },
{
    let mounts = match list_mounts(table) {
        Ok(mounts) => mounts,
        Err(e) => {
            return Err(e);
        },
    };
    let mut pending = no_args();
    let ghost points = mounts@.map_values(|m: MountEntry| m.mountpoint@);
    let ghost keep = |p: Seq<char>| is_watched(watch.deep_view(), p);
    let mut i: usize = 0;
    assert(points.take(0).filter(keep) =~= Seq::empty()) by {
        reveal(Seq::filter);
    }
    while i < mounts.len()
        invariant
            i <= mounts@.len(),
            points == mounts@.map_values(|m: MountEntry| m.mountpoint@),
            keep == (|p: Seq<char>| is_watched(watch.deep_view(), p)),
            pending.deep_view() == points.take(i as int).filter(keep),
        decreases mounts@.len() - i,
    {
        let ghost longer = points.take(i + 1);
        proof {
            reveal(Seq::filter);
            assert(longer.drop_last() =~= points.take(i as int));
            assert(longer.last() == mounts@[i as int].mountpoint@);
        }
        if watches(watch, mounts[i].mountpoint.as_str()) {
            push_arg(&mut pending, mounts[i].mountpoint.as_str());
        }
        i += 1;
    }
    assert(points.take(points.len() as int) =~= points);
    let pass = Recovery { targets: pending, done: 0, releasing: false, outcome: RecoverOutcome::default() };
    assert(pass.deep_view() =~= start(targets(mounts@, watch.deep_view())));
    Ok(pass)
}

// ---------------------------------------------------------------------------
// Laws
// ---------------------------------------------------------------------------

/// A wedged mount is always released first, accessed next, even where the
/// release failed, and then probed exactly once; only that probe decides
/// whether the mount is back.
pub proof fn law_release_order(
    mountpoint: Seq<char>,
    release: ToolAttempt,
    retrigger: ToolAttempt,
    health: Health,
)
    ensures
        ({
            let begun = ReleaseState::Begun;
            let released = release_attempted(begun, release);
            let retriggered = release_attempted(released, retrigger);
            let probed = release_probed(retriggered, health);
            &&& release_step(mountpoint, begun) == (ReleaseStepView::Release {
                tool: "umount"@,
                args: seq!["-lf"@, "--"@, mountpoint],
            })
            &&& release_step(mountpoint, released) == (ReleaseStepView::Retrigger {
                tool: "stat"@,
                args: seq!["--"@, mountpoint],
            })
            &&& release_step(mountpoint, retriggered) == ReleaseStepView::Probe
            &&& release_step(mountpoint, probed) == (ReleaseStepView::Done {
                recovered: health == Health::Healthy,
                errors: release_errors(mountpoint, release) + retrigger_errors(
                    mountpoint,
                    retrigger,
                ),
            })
        }),
{
}

/// What the outside says about one mountpoint: what the probe found and, for
/// a dead mount, what came of releasing it.
pub struct Report {
    pub health: Health,
    pub recovered: bool,
    pub errors: Seq<Seq<char>>,
}

/// The pass after one more mountpoint.
pub open spec fn advanced(v: RecoveryView, r: Report) -> RecoveryView {
    let p = probed(v, r.health);
    if p.releasing {
        released(p, r.recovered, r.errors)
    } else {
        p
    }
}

/// The pass after as many mountpoints as there are reports.
pub open spec fn after(v: RecoveryView, reports: Seq<Report>) -> RecoveryView
    decreases reports.len(),
{
    if reports.len() == 0 {
        v
    } else {
        advanced(after(v, reports.drop_last()), reports.last())
    }
}

/// The mountpoints that were dead and that are back, or are not.
pub open spec fn dead_points(
    points: Seq<Seq<char>>,
    reports: Seq<Report>,
    recovered: bool,
) -> Seq<Seq<char>>
    decreases reports.len(),
{
    if reports.len() == 0 {
        Seq::empty()
    } else {
        let rest = dead_points(points, reports.drop_last(), recovered);
        let r = reports.last();
        if is_dead(r.health) && r.recovered == recovered {
            rest.push(points[reports.len() - 1])
        } else {
            rest
        }
    }
}

/// The errors of a pass, mountpoint by mountpoint.
pub open spec fn pass_errors(points: Seq<Seq<char>>, reports: Seq<Report>) -> Seq<Seq<char>>
    decreases reports.len(),
{
    if reports.len() == 0 {
        Seq::empty()
    } else {
        let rest = pass_errors(points, reports.drop_last());
        let r = reports.last();
        if is_dead(r.health) {
            rest + r.errors
        } else if r.health == Health::Error {
            rest.push(probe_error(points[reports.len() - 1]))
        } else {
            rest
        }
    }
}

/// Wherever a pass stands, it has reported exactly the dead mountpoints that
/// it has passed, each once and in order, as recovered or as still stale, and
/// has the rest before it. After as many reports as mountpoints it is over.
pub proof fn law_recovery_reports_the_dead(points: Seq<Seq<char>>, reports: Seq<Report>)
    requires
        reports.len() <= points.len(),
    ensures
        after(start(points), reports) == (RecoveryView {
            pending: points.skip(reports.len() as int),
            releasing: false,
            outcome: OutcomeView {
                recovered: dead_points(points, reports, true),
                still_stale: dead_points(points, reports, false),
                errors: pass_errors(points, reports),
                no_stale_found: false,
            },
        }),
    decreases reports.len(),
{
    if reports.len() == 0 {
        assert(after(start(points), reports) =~= start(points));
        assert(points.skip(0) =~= points);
    } else {
        let n = reports.len() - 1;
        law_recovery_reports_the_dead(points, reports.drop_last());
        assert(points.skip(n)[0] == points[n]);
        assert(points.skip(n).skip(1) =~= points.skip(n + 1));
    }
}

/// A finished pass says that nothing stale was found exactly where no probe
/// found a dead mount.
pub proof fn law_no_stale_found(points: Seq<Seq<char>>, reports: Seq<Report>)
    requires
        reports.len() == points.len(),
    ensures
        finished(after(start(points), reports).outcome).no_stale_found <==> forall|i: int|
            0 <= i < reports.len() ==> !is_dead((#[trigger] reports[i]).health),
{
    law_recovery_reports_the_dead(points, reports);
    lemma_dead_points_empty(points, reports);
}

/// No mountpoint is reported where no probe found a dead mount.
proof fn lemma_dead_points_empty(points: Seq<Seq<char>>, reports: Seq<Report>)
    ensures
        (dead_points(points, reports, true).len() == 0 && dead_points(
            points,
            reports,
            false,
        ).len() == 0) <==> forall|i: int|
            0 <= i < reports.len() ==> !is_dead((#[trigger] reports[i]).health),
    decreases reports.len(),
{
    if reports.len() > 0 {
        let rest = reports.drop_last();
        lemma_dead_points_empty(points, rest);
        if forall|i: int| 0 <= i < rest.len() ==> !is_dead((#[trigger] rest[i]).health) {
            assert forall|i: int| 0 <= i < reports.len() && i != reports.len() - 1 implies !is_dead(
                (#[trigger] reports[i]).health,
            ) by {
                assert(reports[i] == rest[i]);
            }
            assert(reports[reports.len() - 1] == reports.last());
        } else {
            let i = choose|i: int| 0 <= i < rest.len() && is_dead((#[trigger] rest[i]).health);
            assert(is_dead(reports[i].health));
        }
    }
}

/// Only a dead mount is ever released: a healthy one, and one whose probe is
/// ambiguous, are done with at once and are reported neither as recovered nor
/// as stale.
pub proof fn law_only_dead_mounts_are_released(v: RecoveryView, h: Health)
    requires
        !v.releasing,
    ensures
        probed(v, h).releasing <==> is_dead(h),
        !is_dead(h) ==> probed(v, h).pending == v.pending.skip(1)
            && probed(v, h).outcome.recovered == v.outcome.recovered
            && probed(v, h).outcome.still_stale == v.outcome.still_stale,
{
}

/// A watched path covers itself and what lies below it, and no sibling that
/// merely begins with the same characters.
pub proof fn law_watching_respects_path_boundaries(
    watched: Seq<char>,
    c: char,
    rest: Seq<char>,
)
    ensures
        covers(watched, watched),
        covers(watched, watched.push(c) + rest) <==> c == '/',
{
    let longer = watched.push(c) + rest;
    assert(watched =~= watched.subrange(0, watched.len() as int));
    assert(watched =~= longer.subrange(0, watched.len() as int));
    assert(longer[watched.len() as int] == c);
}

/// Only SMB mounts of the table are listed.
pub proof fn law_listed_mounts_are_smb(table: Seq<MountEntry>, i: int)
    requires
        0 <= i < smb_entries(table).len(),
    ensures
        smb_fstypes().contains(smb_entries(table)[i].fstype@),
        table.contains(smb_entries(table)[i]),
{
    seqs::lemma_filter_members(
        table,
        |m: MountEntry| smb_fstypes().contains(m.fstype@),
        i,
    );
}

/// A recovery pass concerns itself with SMB mounts of the table that are
/// watched, and with nothing else.
pub proof fn law_pass_is_over_watched_smb_mounts(
    table: Seq<MountEntry>,
    watch: Seq<Seq<char>>,
    i: int,
)
    requires
        0 <= i < targets(smb_entries(table), watch).len(),
    ensures
        ({
            let p = targets(smb_entries(table), watch)[i];
            &&& is_watched(watch, p)
            &&& exists|j: int|
                0 <= j < table.len() && (#[trigger] table[j]).mountpoint@ == p
                    && smb_fstypes().contains(table[j].fstype@)
        }),
{
    let mounts = smb_entries(table);
    let points = mounts.map_values(|m: MountEntry| m.mountpoint@);
    let p = targets(mounts, watch)[i];
    seqs::lemma_filter_members(points, |p: Seq<char>| is_watched(watch, p), i);
    let k = choose|k: int| 0 <= k < points.len() && points[k] == p;
    law_listed_mounts_are_smb(table, k);
    let j = choose|j: int| 0 <= j < table.len() && table[j] == mounts[k];
    assert(table[j].mountpoint@ == p);
}

/// Every watched SMB mount of the table is passed over.
pub proof fn law_pass_reaches_every_watched_smb_mount(
    table: Seq<MountEntry>,
    watch: Seq<Seq<char>>,
    j: int,
)
    requires
        0 <= j < table.len(),
        smb_fstypes().contains(table[j].fstype@),
        is_watched(watch, table[j].mountpoint@),
    ensures
        targets(smb_entries(table), watch).contains(table[j].mountpoint@),
{
    let mounts = smb_entries(table);
    let points = mounts.map_values(|m: MountEntry| m.mountpoint@);
    seqs::lemma_filter_keeps(
        table,
        |m: MountEntry| smb_fstypes().contains(m.fstype@),
        j,
    );
    let k = choose|k: int| 0 <= k < mounts.len() && mounts[k] == table[j];
    assert(points[k] == table[j].mountpoint@);
    seqs::lemma_filter_keeps(points, |p: Seq<char>| is_watched(watch, p), k);
}

/// What a probe finding asks for: a stale mount, one that hangs and one that is
/// missing are released; a healthy one is left alone; one whose probe failed
/// otherwise is left alone too, and that is said. Nothing else of the pass
/// changes.
pub proof fn law_probe_decides(v: RecoveryView, h: Health)
    requires
        v.pending.len() > 0,
        !v.releasing,
    ensures
        ({
            let after = probed(v, h);
            &&& after.outcome.recovered == v.outcome.recovered
            &&& after.outcome.still_stale == v.outcome.still_stale
            &&& after.outcome.no_stale_found == v.outcome.no_stale_found
            &&& match h {
                Health::Stale | Health::Timeout | Health::Missing => after.releasing
                    && after.pending == v.pending && after.outcome.errors == v.outcome.errors,
                Health::Healthy => !after.releasing && after.pending == v.pending.skip(1)
                    && after.outcome.errors == v.outcome.errors,
                Health::Error => !after.releasing && after.pending == v.pending.skip(1)
                    && after.outcome.errors == v.outcome.errors.push(
                    "probe "@ + v.pending[0] + ": indeterminate error, left untouched"@,
                ),
            }
        }),
{
}

/// A released mount is reported exactly once, as recovered where it is back
/// and as still stale where it is not, with every error on the way; what was
/// reported before stays, and the pass goes on to the next mount.
pub proof fn law_release_is_reported(
    v: RecoveryView,
    recovered: bool,
    errors: Seq<Seq<char>>,
)
    requires
        v.pending.len() > 0,
    ensures
        ({
            let after = released(v, recovered, errors);
            let back = after.outcome.recovered;
            let stale = after.outcome.still_stale;
            &&& !after.releasing
            &&& after.pending == v.pending.skip(1)
            &&& recovered ==> back.drop_last() == v.outcome.recovered && back.len()
                == v.outcome.recovered.len() + 1 && back.last() == v.pending[0] && stale
                == v.outcome.still_stale
            &&& !recovered ==> stale.drop_last() == v.outcome.still_stale && stale.len()
                == v.outcome.still_stale.len() + 1 && stale.last() == v.pending[0] && back
                == v.outcome.recovered
            &&& after.outcome.errors == v.outcome.errors + errors
        }),
{
    assert(v.outcome.recovered.push(v.pending[0]).drop_last() =~= v.outcome.recovered);
    assert(v.outcome.still_stale.push(v.pending[0]).drop_last() =~= v.outcome.still_stale);
}

/// A pass begins with every mountpoint before it and nothing to report, and
/// finishing it changes no report: it only says whether there is any.
pub proof fn law_pass_begins_and_ends(points: Seq<Seq<char>>, o: OutcomeView)
    ensures
        start(points).pending == points,
        !start(points).releasing,
        start(points).outcome.recovered.len() == 0,
        start(points).outcome.still_stale.len() == 0,
        start(points).outcome.errors.len() == 0,
        finished(o).recovered == o.recovered,
        finished(o).still_stale == o.still_stale,
        finished(o).errors == o.errors,
        finished(o).no_stale_found <==> o.recovered.len() == 0 && o.still_stale.len() == 0,
{
}

/// The outcome of a finished pass, mountpoint by mountpoint: recovered are
/// those that were stale, hung or missing and came back; still stale are those
/// that did not; the errors are those of the releases and of the probes that
/// said nothing; each in the order of the table.
pub proof fn law_finished_pass(points: Seq<Seq<char>>, reports: Seq<Report>)
    requires
        reports.len() == points.len(),
    ensures
        ({
            let o = finished(after(start(points), reports).outcome);
            let n = points.len();
            let dead = |i: int|
                reports[i].health == Health::Stale || reports[i].health == Health::Timeout
                    || reports[i].health == Health::Missing;
            let all = Seq::new(n, |i: int| i);
            &&& o.recovered == all.filter(|i: int| dead(i) && reports[i].recovered).map_values(
                |i: int| points[i],
            )
            &&& o.still_stale == all.filter(
                |i: int| dead(i) && !reports[i].recovered,
            ).map_values(|i: int| points[i])
            &&& o.errors == Seq::new(
                n,
                |i: int|
                    if dead(i) {
                        reports[i].errors
                    } else if reports[i].health == Health::Error {
                        seq!["probe "@ + points[i] + ": indeterminate error, left untouched"@]
                    } else {
                        Seq::empty()
                    },
            ).flatten()
            &&& o.no_stale_found <==> forall|i: int| 0 <= i < n ==> !#[trigger] dead(i)
        }),
{
    let n = points.len();
    let dead = |i: int|
        reports[i].health == Health::Stale || reports[i].health == Health::Timeout
            || reports[i].health == Health::Missing;
    let back = |i: int| dead(i) && reports[i].recovered;
    let stale = |i: int| dead(i) && !reports[i].recovered;
    let said = |i: int|
        if dead(i) {
            reports[i].errors
        } else if reports[i].health == Health::Error {
            seq!["probe "@ + points[i] + ": indeterminate error, left untouched"@]
        } else {
            Seq::empty()
        };
    law_recovery_reports_the_dead(points, reports);
    assert(reports.take(n as int) =~= reports);
    lemma_dead_points_are_filtered(points, reports, n, true, back);
    lemma_dead_points_are_filtered(points, reports, n, false, stale);
    lemma_pass_errors_are_flat(points, reports, n, said);
    law_no_stale_found(points, reports);
    if forall|i: int| 0 <= i < reports.len() ==> !is_dead((#[trigger] reports[i]).health) {
        assert forall|i: int| 0 <= i < n implies !#[trigger] dead(i) by {
            assert(!is_dead(reports[i].health));
        }
    } else {
        let i = choose|i: int| 0 <= i < reports.len() && is_dead((#[trigger] reports[i]).health);
        assert(dead(i));
    }
}

/// The dead mountpoints among the first `m` are picked by their positions.
proof fn lemma_dead_points_are_filtered(
    points: Seq<Seq<char>>,
    reports: Seq<Report>,
    m: nat,
    recovered: bool,
    pick: spec_fn(int) -> bool,
)
    requires
        m <= reports.len(),
        forall|i: int|
            0 <= i < reports.len() ==> #[trigger] pick(i) == (is_dead(reports[i].health)
                && reports[i].recovered == recovered),
    ensures
        dead_points(points, reports.take(m as int), recovered) == Seq::new(
            m,
            |i: int| i,
        ).filter(pick).map_values(|i: int| points[i]),
    decreases m,
{
    reveal(Seq::filter);
    let some = reports.take(m as int);
    let all = Seq::new(m, |i: int| i);
    if m == 0 {
        assert(dead_points(points, some, recovered) =~= all.filter(pick).map_values(
            |i: int| points[i],
        ));
    } else {
        let fewer = Seq::new((m - 1) as nat, |i: int| i);
        lemma_dead_points_are_filtered(points, reports, (m - 1) as nat, recovered, pick);
        assert(some.drop_last() =~= reports.take(m - 1));
        assert(all.drop_last() =~= fewer);
        assert(some.last() == reports[m - 1]);
        assert(all.last() == m - 1);
        assert(pick(m - 1) == (is_dead(reports[m - 1].health) && reports[m - 1].recovered
            == recovered));
        assert(dead_points(points, some, recovered) =~= all.filter(pick).map_values(
            |i: int| points[i],
        ));
    }
}

/// The errors of the first `m` mountpoints, one after the other.
proof fn lemma_pass_errors_are_flat(
    points: Seq<Seq<char>>,
    reports: Seq<Report>,
    m: nat,
    said: spec_fn(int) -> Seq<Seq<char>>,
)
    requires
        m <= reports.len(),
        forall|i: int|
            0 <= i < reports.len() ==> #[trigger] said(i) == if is_dead(reports[i].health) {
                reports[i].errors
            } else if reports[i].health == Health::Error {
                seq![probe_error(points[i])]
            } else {
                Seq::empty()
            },
    ensures
        pass_errors(points, reports.take(m as int)) == Seq::new(m, said).flatten(),
    decreases m,
{
    let some = reports.take(m as int);
    let all = Seq::new(m, said);
    if m == 0 {
        assert(pass_errors(points, some) =~= all.flatten());
    } else {
        let fewer = Seq::new((m - 1) as nat, said);
        lemma_pass_errors_are_flat(points, reports, (m - 1) as nat, said);
        assert(some.drop_last() =~= reports.take(m - 1));
        assert(some.last() == reports[m - 1]);
        assert(all =~= fewer.push(said(m - 1)));
        fewer.lemma_flatten_push(said(m - 1));
        assert(pass_errors(points, some) =~= all.flatten());
    }
}

/// A mountpoint is watched where nothing in particular is watched, or where it
/// is a watched path, or a watched path followed by `/` and whatever comes
/// after.
pub proof fn law_watched_paths(watch: Seq<Seq<char>>, mountpoint: Seq<char>)
    ensures
        is_watched(watch, mountpoint) <==> watch.len() == 0 || exists|i: int|
            0 <= i < watch.len() && (mountpoint == #[trigger] watch[i] || (watch[i]
                + "/"@).is_prefix_of(mountpoint)),
{
    reveal_strlit("/");
    assert forall|w: Seq<char>| #[trigger] covers(w, mountpoint) <==> mountpoint == w || (w
        + "/"@).is_prefix_of(mountpoint) by {
        let n = w.len() as int;
        if covers(w, mountpoint) {
            if mountpoint.len() > n {
                assert(w + "/"@ =~= mountpoint.subrange(0, n + 1));
            } else {
                assert(mountpoint =~= mountpoint.subrange(0, n));
            }
        }
        if mountpoint == w {
            assert(w =~= mountpoint.subrange(0, n));
        }
        if (w + "/"@).is_prefix_of(mountpoint) {
            let p = mountpoint.subrange(0, n + 1);
            assert(p == w + "/"@);
            assert(p[n] == '/');
            assert(w =~= p.subrange(0, n));
            assert(w =~= mountpoint.subrange(0, n));
        }
    }
    if watch.len() > 0 && is_watched(watch, mountpoint) {
        let i = choose|i: int| 0 <= i < watch.len() && covers(#[trigger] watch[i], mountpoint);
        assert(mountpoint == watch[i] || (watch[i] + "/"@).is_prefix_of(mountpoint));
    }
    if exists|i: int|
        0 <= i < watch.len() && (mountpoint == #[trigger] watch[i] || (watch[i]
            + "/"@).is_prefix_of(mountpoint)) {
        let i = choose|i: int|
            0 <= i < watch.len() && (mountpoint == #[trigger] watch[i] || (watch[i]
                + "/"@).is_prefix_of(mountpoint));
        assert(covers(watch[i], mountpoint));
    }
}

/// The listed mounts are the `cifs`, `smb3` and `smbfs` entries of the table,
/// each as it stands and in the order of the table.
pub proof fn law_mounts_are_listed_in_order(table: Seq<MountEntry>, m: MountEntry)
    ensures
        smb_entries(Seq::empty()) == Seq::<MountEntry>::empty(),
        smb_entries(table.push(m)) == if m.fstype@ == "cifs"@ || m.fstype@ == "smb3"@ || m.fstype@
            == "smbfs"@ {
            smb_entries(table).push(m)
        } else {
            smb_entries(table)
        },
{
    reveal(Seq::filter);
    assert(table.push(m).drop_last() =~= table);
    let t = smb_fstypes();
    assert(t[0] == "cifs"@ && t[1] == "smb3"@ && t[2] == "smbfs"@);
    assert(smb_entries(Seq::empty()) =~= Seq::empty());
}

/// A pass is over the mountpoints of the listed mounts that are watched, each
/// as it stands and in order.
pub proof fn law_targets_are_in_order(
    mounts: Seq<MountEntry>,
    m: MountEntry,
    watch: Seq<Seq<char>>,
)
    ensures
        targets(Seq::empty(), watch) == Seq::<Seq<char>>::empty(),
        targets(mounts.push(m), watch) == if is_watched(watch, m.mountpoint@) {
            targets(mounts, watch).push(m.mountpoint@)
        } else {
            targets(mounts, watch)
        },
{
    reveal(Seq::filter);
    let point = |m: MountEntry| m.mountpoint@;
    assert(mounts.push(m).map_values(point).drop_last() =~= mounts.map_values(point));
    assert(mounts.push(m).map_values(point).last() == m.mountpoint@);
    assert(Seq::<MountEntry>::empty().map_values(point) =~= Seq::empty());
    assert(targets(Seq::empty(), watch) =~= Seq::empty());
}

/// What a release and a retrigger leave to report: a release tool that is
/// missing or failed, and a retrigger tool that failed, each with the
/// mountpoint and the tool's own error; nothing where both succeeded.
pub proof fn law_attempts_are_reported(mountpoint: Seq<char>, e: SmbError)
    ensures
        release_errors(mountpoint, ToolAttempt::Succeeded).len() == 0,
        release_errors(mountpoint, ToolAttempt::NotFound) == seq![
            "release: umount not found on PATH"@,
        ],
        release_errors(mountpoint, ToolAttempt::Failed(e)) == seq![
            "release "@ + mountpoint + ": "@ + e.message(),
        ],
        retrigger_errors(mountpoint, ToolAttempt::Succeeded).len() == 0,
        retrigger_errors(mountpoint, ToolAttempt::NotFound).len() == 0,
        retrigger_errors(mountpoint, ToolAttempt::Failed(e)) == seq![
            "retrigger "@ + mountpoint + ": "@ + e.message(),
        ],
{
}

/// An event that a release does not wait for changes nothing, so no step is
/// ever taken twice or skipped.
pub proof fn law_release_ignores_other_events(s: ReleaseState, a: ToolAttempt, h: Health)
    ensures
        s is Retriggered || s is Probed ==> release_attempted(s, a) == s,
        !(s is Retriggered) ==> release_probed(s, h) == s,
{
}

/// The views of a release's step and of an outcome show what they hold.
pub proof fn law_recovery_views(
    o: RecoverOutcome,
    command: ToolCommand,
    recovered: bool,
    errors: Vec<String>,
)
    ensures
        o.deep_view().recovered == o.recovered@.map_values(|s: String| s@),
        o.deep_view().still_stale == o.still_stale@.map_values(|s: String| s@),
        o.deep_view().errors == o.errors@.map_values(|s: String| s@),
        o.deep_view().no_stale_found == o.no_stale_found,
        ReleaseStep::Release(command).deep_view() == (ReleaseStepView::Release {
            tool: command.tool@,
            args: command.args@.map_values(|s: String| s@),
        }),
        ReleaseStep::Retrigger(command).deep_view() == (ReleaseStepView::Retrigger {
            tool: command.tool@,
            args: command.args@.map_values(|s: String| s@),
        }),
        ReleaseStep::Probe.deep_view() == ReleaseStepView::Probe,
        ReleaseStep::Done(recovered, errors).deep_view() == (ReleaseStepView::Done {
            recovered,
            errors: errors@.map_values(|s: String| s@),
        }),
{
    assert(o.deep_view().recovered =~= o.recovered@.map_values(|s: String| s@));
    assert(o.deep_view().still_stale =~= o.still_stale@.map_values(|s: String| s@));
    assert(o.deep_view().errors =~= o.errors@.map_values(|s: String| s@));
    assert(command.args.deep_view() =~= command.args@.map_values(|s: String| s@));
    assert(errors.deep_view() =~= errors@.map_values(|s: String| s@));
}

} // verus!
