//! The migration runner.
//!
//! The runner is a state machine: it says what to do next ([`Action`]), the
//! adapter does it and reports back, and the runner decides how to go on. It
//! reads the ledger, checks every applied migration against its file, and then
//! applies and records the pending migrations in ascending order.
use vstd::prelude::*;
use crate::checksum::{checksum_of, sha256_of_text};
use crate::sorting::{ranked, ranked_is_a_sorted_permutation, ranked_keeps_membership};
use crate::storage::error::{
    AppliedMigration, AppliedView, Error, ErrorView, MigrationDirection, MigrationResult,
    MigrationWarning, ResultView, WarningView,
};
use crate::storage::files::{
    breaking, contains_breaking_marker, list_migration_files, listing_ascends, selected, DirEntry,
    FileView, MigrationFile,
};
use crate::storage::manifest::{is_too_old, too_old, Manifest, ManifestMigration};
use crate::text::{contains_text, decimal, decimal_of, occurs_in, same_text};
use crate::time::Timestamp;

verus! {

// --- The ledger --------------------------------------------------------------

/// A row of the schema ledger.
#[derive(Debug)]
pub struct LedgerRow {
    pub version: u32,
    pub applied_at: Timestamp,
    pub engram_ver: String,
    pub migration: String,
    pub checksum: String,
    pub direction: String,
}

/// What the runner reads of a [`LedgerRow`].
pub struct LedgerView {
    pub version: u32,
    pub migration: Seq<char>,
    pub checksum: Seq<char>,
}

impl DeepView for LedgerRow {
    type V = LedgerView;

    open spec fn deep_view(&self) -> LedgerView {
        LedgerView {
            version: self.version,
            migration: self.migration@,
            checksum: self.checksum@,
        }
    }
}

/// The versions of ledger rows.
pub open spec fn row_versions(rows: Seq<LedgerView>) -> Seq<u32> {
    rows.map_values(|r: LedgerView| r.version)
}

/// The versions of applied migrations.
pub open spec fn applied_versions(applied: Seq<AppliedView>) -> Seq<u32> {
    applied.map_values(|a: AppliedView| a.version)
}

/// The highest of some versions; zero where there is none.
pub open spec fn highest(versions: Seq<u32>) -> u32
    decreases versions.len(),
{
    if versions.len() == 0 {
        0
    } else {
        let front = highest(versions.drop_last());
        if front < versions.last() {
            versions.last()
        } else {
            front
        }
    }
}

/// The highest version bounds all the others, and is one of them.
pub proof fn highest_is_the_maximum(versions: Seq<u32>)
    ensures
        forall|i: int| 0 <= i < versions.len() ==> #[trigger] versions[i] <= highest(versions),
        versions.len() > 0 ==> versions.contains(highest(versions)),
        versions.len() == 0 ==> highest(versions) == 0,
    decreases versions.len(),
{
    if versions.len() > 0 {
        let front = versions.drop_last();
        highest_is_the_maximum(front);
        assert forall|i: int| 0 <= i < versions.len() implies #[trigger] versions[i] <= highest(
            versions,
        ) by {
            if i < front.len() {
                assert(front[i] == versions[i]);
            }
        }
        if front.len() > 0 && highest(front) >= versions.last() {
            let k = choose|k: int| 0 <= k < front.len() && front[k] == highest(front);
            assert(versions[k] == highest(versions));
        } else if front.len() == 0 {
            assert(versions[0] == versions.last());
            assert(versions[versions.len() - 1] == highest(versions));
        } else {
            assert(versions[versions.len() - 1] == highest(versions));
        }
    }
}

/// What a failed ledger query means: a missing table is an empty ledger, which
/// the first migration will create; anything else is a failure.
pub fn ledger_failure(message: &str) -> (r: Result<Vec<LedgerRow>, Error>)
    ensures
        match r {
            Ok(rows) => occurs_in(message@, "does not exist"@) && rows@.len() == 0,
            Err(e) => !occurs_in(message@, "does not exist"@) && e.deep_view()
                == ErrorView::Surreal(message@),
        },
{
    if contains_text(message, "does not exist") {
        Ok(Vec::new())
    } else {
        Err(Error::Surreal(message.to_owned()))
    }
}

// --- What the runner expects of its inputs -----------------------------------

/// The versions of migration files.
pub open spec fn file_versions(files: Seq<FileView>) -> Seq<u32> {
    files.map_values(|f: FileView| f.version)
}

/// The first of `versions` that is not among `known`.
pub open spec fn first_outside(versions: Seq<u32>, known: Seq<u32>) -> Option<u32>
    decreases versions.len(),
{
    if versions.len() == 0 {
        None
    } else if !known.contains(versions[0]) {
        Some(versions[0])
    } else {
        first_outside(versions.drop_first(), known)
    }
}

/// The least of `versions` that is not among `known`.
pub open spec fn least_outside(versions: Seq<u32>, known: Seq<u32>) -> Option<u32>
    decreases versions.len(),
{
    if versions.len() == 0 {
        None
    } else {
        let front = least_outside(versions.drop_last(), known);
        let last = versions.last();
        if known.contains(last) {
            front
        } else {
            match front {
                Some(v) if v <= last => Some(v),
                _ => Some(last),
            }
        }
    }
}

/// The first position whose version does not follow on from the one before it.
pub open spec fn first_break(versions: Seq<u32>, i: int) -> Option<int>
    decreases versions.len() - i,
{
    if i < 1 || i >= versions.len() {
        None
    } else if versions[i] != versions[i - 1] + 1 {
        Some(i)
    } else {
        first_break(versions, i + 1)
    }
}

/// Why a run cannot start with these versions on disk, if so: the manifest and
/// the directory disagree, or the versions repeat or leave a gap.
pub open spec fn start_fault(versions: Seq<u32>, declared: Seq<u32>) -> Option<ErrorView> {
    if let Some(v) = first_outside(versions, declared) {
        Some(
            ErrorView::MigrationInvariant(
                "migration file version "@ + decimal_of(v as nat)
                    + " is on disk but not declared in the manifest"@,
            ),
        )
    } else if let Some(v) = least_outside(declared, versions) {
        Some(
            ErrorView::MigrationInvariant(
                "manifest declares migration "@ + decimal_of(v as nat)
                    + " but the file is missing from disk"@,
            ),
        )
    } else if let Some(i) = first_break(versions, 1) {
        if versions[i] == versions[i - 1] {
            Some(
                ErrorView::MigrationInvariant(
                    "migration version "@ + decimal_of(versions[i] as nat) + " occurs twice"@,
                ),
            )
        } else {
            Some(
                ErrorView::MigrationInvariant(
                    "migration versions leave a gap between "@ + decimal_of(versions[i - 1] as nat)
                        + " and "@ + decimal_of(versions[i] as nat),
                ),
            )
        }
    } else {
        None
    }
}

/// Why the running release cannot apply a manifest.
pub open spec fn release_fault(running: Seq<char>, minimum: Seq<char>) -> ErrorView {
    ErrorView::Manifest(
        "Engram "@ + running + " is older than the manifest's minimum "@ + minimum,
    )
}

// --- The state of a run ------------------------------------------------------

/// Where a run stands.
pub enum PhaseView {
    /// The ledger is to be read.
    Ledger,
    /// The file of ledger row `row` is to be read.
    Verifying { row: int },
    /// The pending file at `pos` is to be read.
    Reading { pos: int },
    /// The pending file at `pos` is to be applied.
    Applying { pos: int, checksum: Seq<char> },
    /// The file at `pos` was applied and is to be recorded.
    Recording { pos: int, checksum: Seq<char> },
    /// Nothing is left to do.
    Finished,
}

/// What a [`MigrationRun`] holds.
pub struct RunView {
    pub files: Seq<FileView>,
    pub supported: u32,
    pub engram_version: Seq<char>,
    pub strict: bool,
    pub ledger: Seq<LedgerView>,
    pub applied: Seq<AppliedView>,
    pub skipped: Seq<u32>,
    pub warnings: Seq<WarningView>,
    pub phase: PhaseView,
}

/// What is to be done next.
pub enum ActionView {
    ReadApplied { file: Seq<char> },
    ReadPending { path: Seq<char> },
    Apply { version: u32, text: Seq<char>, warning: Option<WarningView> },
    Record {
        statement: Seq<char>,
        engram_ver: Seq<char>,
        migration: Seq<char>,
        checksum: Seq<char>,
    },
    Finish(ResultView),
}

/// What the adapter is to do next.
#[derive(Debug)]
pub enum Action {
    /// Read the file of an applied migration from the migrations directory.
    ReadApplied { file: String },
    /// Read a pending migration file.
    ReadPending { path: String },
    /// Run a migration as one transaction; a warning is to be logged before.
    Apply { version: u32, text: String, warning: Option<MigrationWarning> },
    /// Record an applied migration in the ledger.
    Record { statement: String, engram_ver: String, migration: String, checksum: String },
    /// The run is over.
    Finish(MigrationResult),
}

impl DeepView for Action {
    type V = ActionView;

    open spec fn deep_view(&self) -> ActionView {
        match self {
            Action::ReadApplied { file } => ActionView::ReadApplied { file: file@ },
            Action::ReadPending { path } => ActionView::ReadPending { path: path@ },
            Action::Apply { version, text, warning } => ActionView::Apply {
                version: *version,
                text: text@,
                warning: warning.deep_view(),
            },
            Action::Record { statement, engram_ver, migration, checksum } => ActionView::Record {
                statement: statement@,
                engram_ver: engram_ver@,
                migration: migration@,
                checksum: checksum@,
            },
            Action::Finish(result) => ActionView::Finish(result.deep_view()),
        }
    }
}

/// The statement that records migration `version`.
pub open spec fn record_statement(version: u32) -> Seq<char> {
    "CREATE engram_schema SET version = "@ + decimal_of(version as nat)
        + ", engram_ver = $engram_ver, migration = $migration, checksum = $checksum, direction = 'up', applied_at = time::now()"@
}

/// What the database is to run for a migration: its text as one transaction, so
/// that all of it takes effect or nothing does. The text's last statement need
/// not end in a semicolon.
pub open spec fn in_transaction(text: Seq<char>) -> Seq<char> {
    "BEGIN TRANSACTION;\n"@ + text + "\n;\nCOMMIT TRANSACTION;"@
}

/// The message about a migration with a breaking header.
pub open spec fn breaking_message() -> Seq<char> {
    "migration file contains a BREAKING: header and may drop or transform data"@
}

/// The warning about a migration, where it has a breaking header.
pub open spec fn warning_about(file: FileView, text: Seq<char>) -> Option<WarningView> {
    if breaking(text) {
        Some(WarningView { version: file.version, file: file.name, message: breaking_message() })
    } else {
        None
    }
}

impl RunView {
    /// The versions that the database holds: those of the ledger and those that
    /// this run applied.
    pub open spec fn present(self) -> Seq<u32> {
        row_versions(self.ledger) + applied_versions(self.applied)
    }

    /// What the run reports.
    pub open spec fn result(self) -> ResultView {
        ResultView {
            applied: self.applied,
            skipped: self.skipped,
            current_version: highest(self.present()),
            warnings: self.warnings,
        }
    }

    /// The run goes on with the file at `pos`: files that the database holds
    /// already are skipped, and the first other one is to be read.
    pub open spec fn advance(self, pos: int) -> (RunView, ActionView)
        decreases self.files.len() - pos,
    {
        if pos < 0 || pos >= self.files.len() {
            (RunView { phase: PhaseView::Finished, ..self }, ActionView::Finish(self.result()))
        } else if self.present().contains(self.files[pos].version) {
            (RunView { skipped: self.skipped.push(self.files[pos].version), ..self }).advance(
                pos + 1,
            )
        } else {
            (
                RunView { phase: PhaseView::Reading { pos }, ..self },
                ActionView::ReadPending { path: self.files[pos].path },
            )
        }
    }

    /// The run goes on with ledger row `row`: its file is to be read. Behind the
    /// last row the pending files are next.
    pub open spec fn verify(self, row: int) -> (RunView, ActionView) {
        if 0 <= row < self.ledger.len() {
            (
                RunView { phase: PhaseView::Verifying { row }, ..self },
                ActionView::ReadApplied { file: self.ledger[row].migration },
            )
        } else {
            self.advance(0)
        }
    }

    /// The ledger was read.
    pub open spec fn on_ledger(self, rows: Seq<LedgerView>) -> Result<
        (RunView, ActionView),
        ErrorView,
    > {
        if highest(row_versions(rows)) > self.supported {
            Err(
                ErrorView::SchemaTooNew {
                    db: highest(row_versions(rows)),
                    supported: self.supported,
                },
            )
        } else {
            Ok((RunView { ledger: rows, ..self }).verify(0))
        }
    }

    /// The file of an applied migration was read.
    pub open spec fn on_applied_file(self, row: int, text: Seq<char>) -> Result<
        (RunView, ActionView),
        ErrorView,
    > {
        if checksum_of(text) != self.ledger[row].checksum {
            Err(
                ErrorView::ChecksumMismatch {
                    version: self.ledger[row].version,
                    file: self.ledger[row].migration,
                    stored: self.ledger[row].checksum,
                    file_checksum: checksum_of(text),
                },
            )
        } else {
            Ok(self.verify(row + 1))
        }
    }

    /// A pending file was read.
    pub open spec fn on_pending_file(self, pos: int, text: Seq<char>) -> Result<
        (RunView, ActionView),
        ErrorView,
    > {
        let file = self.files[pos];
        if breaking(text) && self.strict {
            Err(
                ErrorView::MigrationInvariant(
                    "strict mode refuses destructive migration "@ + decimal_of(file.version as nat)
                        + " ("@ + file.path + "): "@ + breaking_message(),
                ),
            )
        } else {
            let warning = warning_about(file, text);
            Ok(
                (
                    RunView {
                        warnings: match warning {
                            Some(w) => self.warnings.push(w),
                            None => self.warnings,
                        },
                        phase: PhaseView::Applying { pos, checksum: checksum_of(text) },
                        ..self
                    },
                    ActionView::Apply {
                        version: file.version,
                        text: in_transaction(text),
                        warning,
                    },
                ),
            )
        }
    }

    /// A file was read.
    pub open spec fn on_file(self, text: Seq<char>) -> Result<(RunView, ActionView), ErrorView> {
        match self.phase {
            PhaseView::Verifying { row } => self.on_applied_file(row, text),
            PhaseView::Reading { pos } => self.on_pending_file(pos, text),
            _ => arbitrary(),
        }
    }

    /// A migration was applied.
    pub open spec fn on_applied(self) -> (RunView, ActionView) {
        match self.phase {
            PhaseView::Applying { pos, checksum } => (
                RunView { phase: PhaseView::Recording { pos, checksum }, ..self },
                ActionView::Record {
                    statement: record_statement(self.files[pos].version),
                    engram_ver: self.engram_version,
                    migration: self.files[pos].name,
                    checksum,
                },
            ),
            _ => arbitrary(),
        }
    }

    /// An applied migration was recorded.
    pub open spec fn on_recorded(self) -> (RunView, ActionView) {
        match self.phase {
            PhaseView::Recording { pos, checksum } => (RunView {
                applied: self.applied.push(
                    AppliedView {
                        version: self.files[pos].version,
                        file: self.files[pos].name,
                        checksum,
                        direction: MigrationDirection::Up,
                    },
                ),
                ..self
            }).advance(pos + 1),
            _ => arbitrary(),
        }
    }
}

// --- What holds of every run -------------------------------------------------

/// The versions of `files` that `known` lacks, in order.
pub open spec fn pending(files: Seq<FileView>, known: Seq<u32>) -> Seq<u32>
    decreases files.len(),
{
    if files.len() == 0 {
        Seq::empty()
    } else {
        let front = pending(files.drop_last(), known);
        if known.contains(files.last().version) {
            front
        } else {
            front.push(files.last().version)
        }
    }
}

/// The versions of `files` that `known` holds, in order.
pub open spec fn settled(files: Seq<FileView>, known: Seq<u32>) -> Seq<u32>
    decreases files.len(),
{
    if files.len() == 0 {
        Seq::empty()
    } else {
        let front = settled(files.drop_last(), known);
        if known.contains(files.last().version) {
            front.push(files.last().version)
        } else {
            front
        }
    }
}

/// Each version follows on from the one before it.
pub open spec fn consecutive(versions: Seq<u32>) -> bool {
    forall|i: int, j: int|
        0 <= i <= j < versions.len() ==> #[trigger] versions[j] - #[trigger] versions[i] == j - i
}

/// A version that is pending is the version of one of the files, and the ledger
/// lacks it; every version that the ledger lacks is pending.
pub proof fn pending_is_what_the_ledger_lacks(files: Seq<FileView>, known: Seq<u32>, v: u32)
    ensures
        pending(files, known).contains(v) <==> file_versions(files).contains(v) && !known.contains(
            v,
        ),
    decreases files.len(),
{
    let versions = file_versions(files);
    if files.len() > 0 {
        let front = files.drop_last();
        pending_is_what_the_ledger_lacks(front, known, v);
        assert(versions.drop_last() =~= file_versions(front));
        assert(versions.last() == files.last().version);
        assert(versions == versions.drop_last().push(versions.last()));
        lemma_push_contains(versions.drop_last(), versions.last(), v);
        lemma_push_contains(pending(front, known), files.last().version, v);
    }
}

/// A version is skipped exactly where a file has it and the ledger holds it.
pub proof fn settled_is_what_the_ledger_holds(files: Seq<FileView>, known: Seq<u32>, v: u32)
    ensures
        settled(files, known).contains(v) <==> file_versions(files).contains(v) && known.contains(v),
    decreases files.len(),
{
    let versions = file_versions(files);
    if files.len() > 0 {
        let front = files.drop_last();
        settled_is_what_the_ledger_holds(front, known, v);
        assert(versions.drop_last() =~= file_versions(front));
        assert(versions.last() == files.last().version);
        assert(versions == versions.drop_last().push(versions.last()));
        lemma_push_contains(versions.drop_last(), versions.last(), v);
        lemma_push_contains(settled(front, known), files.last().version, v);
    }
}

proof fn lemma_push_contains(s: Seq<u32>, x: u32, v: u32)
    ensures
        s.push(x).contains(v) <==> s.contains(v) || x == v,
{
    if s.contains(v) {
        let k = choose|k: int| 0 <= k < s.len() && s[k] == v;
        assert(s.push(x)[k] == v);
    }
    if x == v {
        assert(s.push(x)[s.len() as int] == v);
    }
    if s.push(x).contains(v) && x != v {
        let k = choose|k: int| 0 <= k < s.push(x).len() && s.push(x)[k] == v;
        assert(s[k] == v);
    }
}

/// Once a run has recorded every pending migration, a second run over the same
/// files has nothing to apply: it skips all of them, and the schema version
/// stays where it was.
pub proof fn a_second_run_applies_nothing(
    files: Seq<FileView>,
    before: Seq<u32>,
    after: Seq<u32>,
)
    requires
        forall|v: u32|
            #[trigger] after.contains(v) <==> before.contains(v) || pending(files, before).contains(
                v,
            ),
    ensures
        pending(files, after) == Seq::<u32>::empty(),
        settled(files, after) == file_versions(files),
        highest(after) == highest(before + pending(files, before)),
{
    assert forall|i: int| 0 <= i < files.len() implies after.contains(
        (#[trigger] files[i]).version,
    ) by {
        let v = files[i].version;
        assert(file_versions(files)[i] == v);
        assert(file_versions(files).contains(v));
        pending_is_what_the_ledger_lacks(files, before, v);
    }
    lemma_all_settled(files, after);
    let all = before + pending(files, before);
    assert forall|v: u32| #[trigger] all.contains(v) <==> after.contains(v) by {
        lemma_concat_contains(before, pending(files, before), v);
    }
    lemma_highest_of_same_set(all, after);
}

proof fn lemma_all_settled(files: Seq<FileView>, known: Seq<u32>)
    requires
        forall|i: int| 0 <= i < files.len() ==> known.contains((#[trigger] files[i]).version),
    ensures
        pending(files, known) == Seq::<u32>::empty(),
        settled(files, known) == file_versions(files),
    decreases files.len(),
{
    if files.len() > 0 {
        let front = files.drop_last();
        assert forall|i: int| 0 <= i < front.len() implies known.contains(
            (#[trigger] front[i]).version,
        ) by {
            assert(front[i] == files[i]);
        }
        lemma_all_settled(front, known);
        assert(known.contains(files[files.len() - 1].version));
        assert(file_versions(files) =~= file_versions(front).push(files.last().version));
    }
}

proof fn lemma_concat_contains(a: Seq<u32>, b: Seq<u32>, v: u32)
    ensures
        (a + b).contains(v) <==> a.contains(v) || b.contains(v),
{
    let s = a + b;
    if a.contains(v) {
        let k = choose|k: int| 0 <= k < a.len() && a[k] == v;
        assert(s[k] == v);
    }
    if b.contains(v) {
        let k = choose|k: int| 0 <= k < b.len() && b[k] == v;
        assert(s[a.len() + k] == v);
    }
    if s.contains(v) {
        let k = choose|k: int| 0 <= k < s.len() && s[k] == v;
        if k < a.len() {
            assert(a[k] == v);
        } else {
            assert(b[k - a.len()] == v);
        }
    }
}

proof fn lemma_highest_of_same_set(a: Seq<u32>, b: Seq<u32>)
    requires
        forall|v: u32| #[trigger] a.contains(v) <==> b.contains(v),
    ensures
        highest(a) == highest(b),
{
    highest_is_the_maximum(a);
    highest_is_the_maximum(b);
    if a.len() > 0 {
        assert(a.contains(highest(a)));
        assert(b.contains(highest(a)));
        let k = choose|k: int| 0 <= k < b.len() && b[k] == highest(a);
        assert(b[k] <= highest(b));
    }
    if b.len() > 0 {
        assert(b.contains(highest(b)));
        assert(a.contains(highest(b)));
        let k = choose|k: int| 0 <= k < a.len() && a[k] == highest(b);
        assert(a[k] <= highest(a));
    }
}

impl RunView {
    /// The files before `pos` are dealt with: those that the ledger lacked were
    /// applied, in order, and the others were skipped, in order.
    pub open spec fn dealt_with(self, pos: int) -> bool {
        &&& 0 <= pos <= self.files.len()
        &&& applied_versions(self.applied) == pending(
            self.files.take(pos),
            row_versions(self.ledger),
        )
        &&& self.skipped == settled(self.files.take(pos), row_versions(self.ledger))
    }

    /// The file at `pos` is neither in the ledger nor applied by this run.
    pub open spec fn fresh(self, pos: int) -> bool {
        0 <= pos < self.files.len() && !self.present().contains(self.files[pos].version)
    }

    /// Nothing was applied, skipped or warned of yet.
    pub open spec fn untouched(self) -> bool {
        self.applied.len() == 0 && self.skipped.len() == 0 && self.warnings.len() == 0
    }

    /// What holds of a run at every step.
    pub open spec fn wf(self) -> bool {
        &&& consecutive(file_versions(self.files))
        &&& highest(row_versions(self.ledger)) <= self.supported
        &&& match self.phase {
            PhaseView::Ledger => self.untouched() && self.ledger.len() == 0,
            PhaseView::Verifying { row } => self.untouched() && 0 <= row < self.ledger.len(),
            PhaseView::Reading { pos } => self.dealt_with(pos) && self.fresh(pos),
            PhaseView::Applying { pos, checksum } => self.dealt_with(pos) && self.fresh(pos),
            PhaseView::Recording { pos, checksum } => self.dealt_with(pos) && self.fresh(pos),
            PhaseView::Finished => self.dealt_with(self.files.len() as int),
        }
    }

    /// How many steps the run can still take.
    pub open spec fn steps_left(self) -> int {
        let files = self.files.len();
        match self.phase {
            PhaseView::Ledger => 0,
            PhaseView::Verifying { row } => 3 * files + 1 + self.ledger.len() - row,
            PhaseView::Reading { pos } => 3 * (files - pos),
            PhaseView::Applying { pos, checksum } => 3 * (files - pos) - 1,
            PhaseView::Recording { pos, checksum } => 3 * (files - pos) - 2,
            PhaseView::Finished => 0,
        }
    }
}

/// The database holds the next file's version exactly where the ledger does: this
/// run has applied earlier versions only.
proof fn lemma_present_is_known(run: RunView, pos: int)
    requires
        consecutive(file_versions(run.files)),
        run.dealt_with(pos),
        pos < run.files.len(),
    ensures
        run.present().contains(run.files[pos].version) <==> row_versions(run.ledger).contains(
            run.files[pos].version,
        ),
{
    let versions = file_versions(run.files);
    let known = row_versions(run.ledger);
    let v = run.files[pos].version;
    lemma_concat_contains(known, applied_versions(run.applied), v);
    pending_is_what_the_ledger_lacks(run.files.take(pos), known, v);
    if file_versions(run.files.take(pos)).contains(v) {
        let k = choose|k: int| 0 <= k < pos && file_versions(run.files.take(pos))[k] == v;
        assert(versions[k] == v);
        assert(versions[pos] == v);
        assert(versions[pos] - versions[k] == pos - k);
    }
}

/// Advancing keeps the run well-formed, ends at the first file that the ledger
/// lacks, and reports exactly the applied and skipped versions at the end.
pub proof fn advance_keeps_the_run(run: RunView, pos: int)
    requires
        consecutive(file_versions(run.files)),
        highest(row_versions(run.ledger)) <= run.supported,
        run.dealt_with(pos),
    ensures
        run.advance(pos).0.wf(),
        run.advance(pos).0.files == run.files,
        run.advance(pos).0.ledger == run.ledger,
        run.advance(pos).0.applied == run.applied,
        run.advance(pos).0.phase is Reading || run.advance(pos).0.phase is Finished,
        run.advance(pos).0.steps_left() <= 3 * (run.files.len() - pos),
    decreases run.files.len() - pos,
{
    if pos < run.files.len() {
        let known = row_versions(run.ledger);
        let v = run.files[pos].version;
        let next = run.files.take(pos + 1);
        assert(next.drop_last() == run.files.take(pos));
        assert(next.last() == run.files[pos]);
        lemma_present_is_known(run, pos);
        if known.contains(v) {
            let skipping = RunView { skipped: run.skipped.push(v), ..run };
            advance_keeps_the_run(skipping, pos + 1);
        }
    } else {
        assert(run.files.take(pos) == run.files);
    }
}

/// A run that started well stays well-formed when the ledger was read.
pub proof fn on_ledger_keeps_the_run(run: RunView, rows: Seq<LedgerView>)
    requires
        run.wf(),
        run.phase is Ledger,
        run.on_ledger(rows) is Ok,
    ensures
        run.on_ledger(rows)->Ok_0.0.wf(),
        !(run.on_ledger(rows)->Ok_0.0.phase is Ledger),
{
    let read = RunView { ledger: rows, ..run };
    if rows.len() == 0 {
        lemma_start(read);
        advance_keeps_the_run(read, 0);
    }
}

proof fn lemma_start(run: RunView)
    requires
        run.untouched(),
    ensures
        run.dealt_with(0),
{
    assert(run.files.take(0) == Seq::<FileView>::empty());
    assert(applied_versions(run.applied) =~= Seq::<u32>::empty());
    assert(run.skipped =~= Seq::<u32>::empty());
}

/// A well-formed run stays so when a file was read, and one step is done.
pub proof fn on_file_keeps_the_run(run: RunView, text: Seq<char>)
    requires
        run.wf(),
        run.phase is Verifying || run.phase is Reading,
        run.on_file(text) is Ok,
    ensures
        run.on_file(text)->Ok_0.0.wf(),
        0 <= run.on_file(text)->Ok_0.0.steps_left() < run.steps_left(),
{
    if let PhaseView::Verifying { row } = run.phase {
        if row + 1 >= run.ledger.len() {
            lemma_start(run);
            advance_keeps_the_run(run, 0);
        }
    }
}

/// A well-formed run stays so when a migration was applied, and one step is
/// done.
pub proof fn on_applied_keeps_the_run(run: RunView)
    requires
        run.wf(),
        run.phase is Applying,
    ensures
        run.on_applied().0.wf(),
        0 <= run.on_applied().0.steps_left() < run.steps_left(),
{
}

/// A well-formed run stays so when a migration was recorded, and one step is
/// done.
pub proof fn on_recorded_keeps_the_run(run: RunView)
    requires
        run.wf(),
        run.phase is Recording,
    ensures
        run.on_recorded().0.wf(),
        0 <= run.on_recorded().0.steps_left() < run.steps_left(),
{
    if let PhaseView::Recording { pos, checksum } = run.phase {
        let entry = AppliedView {
            version: run.files[pos].version,
            file: run.files[pos].name,
            checksum,
            direction: MigrationDirection::Up,
        };
        let grown = RunView { applied: run.applied.push(entry), ..run };
        let known = row_versions(run.ledger);
        assert(run.files.take(pos + 1).drop_last() == run.files.take(pos));
        assert(applied_versions(grown.applied) =~= applied_versions(run.applied).push(
            entry.version,
        ));
        lemma_concat_contains(known, applied_versions(run.applied), entry.version);
        advance_keeps_the_run(grown, pos + 1);
    }
}

/// A finished run has applied exactly the versions that the ledger lacked, in
/// ascending order, and has skipped the others; its schema version is the
/// highest that the database now holds.
pub proof fn a_finished_run_is_complete(run: RunView)
    requires
        run.wf(),
        run.phase is Finished,
    ensures
        applied_versions(run.result().applied) == pending(run.files, row_versions(run.ledger)),
        run.result().skipped == settled(run.files, row_versions(run.ledger)),
        run.result().current_version == highest(
            row_versions(run.ledger) + pending(run.files, row_versions(run.ledger)),
        ),
{
    assert(run.files.take(run.files.len() as int) == run.files);
}

/// The text of each file, by its path.
pub type Disk = spec_fn(Seq<char>) -> Seq<char>;

/// What is reported of applying those of `files` that `known` lacks.
pub open spec fn entries(files: Seq<FileView>, known: Seq<u32>, disk: Disk) -> Seq<AppliedView>
    decreases files.len(),
{
    if files.len() == 0 {
        Seq::empty()
    } else {
        let front = entries(files.drop_last(), known, disk);
        let file = files.last();
        if known.contains(file.version) {
            front
        } else {
            front.push(
                AppliedView {
                    version: file.version,
                    file: file.name,
                    checksum: checksum_of(disk(file.path)),
                    direction: MigrationDirection::Up,
                },
            )
        }
    }
}

/// The warnings about those of `files` that `known` lacks: one for each that has
/// a breaking header.
pub open spec fn warnings_about(files: Seq<FileView>, known: Seq<u32>, disk: Disk) -> Seq<
    WarningView,
>
    decreases files.len(),
{
    if files.len() == 0 {
        Seq::empty()
    } else {
        let front = warnings_about(files.drop_last(), known, disk);
        let file = files.last();
        match warning_about(file, disk(file.path)) {
            Some(w) if !known.contains(file.version) => front.push(w),
            _ => front,
        }
    }
}

/// One step takes a run from one state to the next, with the pending files as
/// they stand on disk.
pub open spec fn steps(before: RunView, after: RunView, disk: Disk) -> bool {
    match before.phase {
        PhaseView::Ledger => exists|rows: Seq<LedgerView>|
            (#[trigger] before.on_ledger(rows)) is Ok && after == before.on_ledger(rows)->Ok_0.0,
        PhaseView::Verifying { row } => exists|text: Seq<char>|
            (#[trigger] before.on_file(text)) is Ok && after == before.on_file(text)->Ok_0.0,
        PhaseView::Reading { pos } => {
            let text = disk(before.files[pos].path);
            before.on_file(text) is Ok && after == before.on_file(text)->Ok_0.0
        },
        PhaseView::Applying { pos, checksum } => after == before.on_applied().0,
        PhaseView::Recording { pos, checksum } => after == before.on_recorded().0,
        PhaseView::Finished => false,
    }
}

/// The states of a run from its start on, each a step behind the one before.
pub open spec fn is_run(states: Seq<RunView>, disk: Disk) -> bool {
    &&& states.len() > 0
    &&& states[0].wf()
    &&& states[0].phase is Ledger
    &&& forall|i: int| 0 < i < states.len() ==> #[trigger] steps(states[i - 1], states[i], disk)
}

/// The run has reported the files before `pos`, and warned of those before
/// `warned`.
spec fn has_reported(run: RunView, pos: int, warned: int, disk: Disk) -> bool {
    &&& run.applied == entries(run.files.take(pos), row_versions(run.ledger), disk)
    &&& run.warnings == warnings_about(run.files.take(warned), row_versions(run.ledger), disk)
}

spec fn reports_hold(run: RunView, disk: Disk) -> bool {
    match run.phase {
        PhaseView::Ledger => true,
        PhaseView::Verifying { row } => true,
        PhaseView::Reading { pos } => has_reported(run, pos, pos, disk),
        PhaseView::Applying { pos, checksum } => {
            &&& has_reported(run, pos, pos + 1, disk)
            &&& checksum == checksum_of(disk(run.files[pos].path))
        },
        PhaseView::Recording { pos, checksum } => {
            &&& has_reported(run, pos, pos + 1, disk)
            &&& checksum == checksum_of(disk(run.files[pos].path))
        },
        PhaseView::Finished => has_reported(
            run,
            run.files.len() as int,
            run.files.len() as int,
            disk,
        ),
    }
}

proof fn lemma_advance_reports(run: RunView, pos: int, disk: Disk)
    requires
        consecutive(file_versions(run.files)),
        run.dealt_with(pos),
        has_reported(run, pos, pos, disk),
    ensures
        reports_hold(run.advance(pos).0, disk),
    decreases run.files.len() - pos,
{
    if pos < run.files.len() {
        lemma_present_is_known(run, pos);
        let next = run.files.take(pos + 1);
        assert(next.drop_last() == run.files.take(pos));
        assert(next.last() == run.files[pos]);
        if row_versions(run.ledger).contains(run.files[pos].version) {
            let skipping = RunView { skipped: run.skipped.push(run.files[pos].version), ..run };
            lemma_advance_reports(skipping, pos + 1, disk);
        }
    }
}

proof fn lemma_first_report(run: RunView, disk: Disk)
    requires
        consecutive(file_versions(run.files)),
        run.untouched(),
    ensures
        reports_hold(run.advance(0).0, disk),
{
    lemma_start(run);
    assert(run.files.take(0) == Seq::<FileView>::empty());
    assert(run.applied =~= Seq::<AppliedView>::empty());
    assert(run.warnings =~= Seq::<WarningView>::empty());
    lemma_advance_reports(run, 0, disk);
}

proof fn lemma_step_reports(before: RunView, after: RunView, disk: Disk)
    requires
        before.wf(),
        reports_hold(before, disk),
        steps(before, after, disk),
    ensures
        after.wf(),
        reports_hold(after, disk),
        after.files == before.files,
{
    match before.phase {
        PhaseView::Ledger => {
            let rows = choose|rows: Seq<LedgerView>|
                (#[trigger] before.on_ledger(rows)) is Ok && after == before.on_ledger(
                    rows,
                )->Ok_0.0;
            on_ledger_keeps_the_run(before, rows);
            let read = RunView { ledger: rows, ..before };
            if rows.len() == 0 {
                lemma_start(read);
                advance_keeps_the_run(read, 0);
                lemma_first_report(read, disk);
            }
        },
        PhaseView::Verifying { row } => {
            let text = choose|text: Seq<char>|
                (#[trigger] before.on_file(text)) is Ok && after == before.on_file(text)->Ok_0.0;
            on_file_keeps_the_run(before, text);
            if row + 1 >= before.ledger.len() {
                lemma_start(before);
                advance_keeps_the_run(before, 0);
                lemma_first_report(before, disk);
            }
        },
        PhaseView::Reading { pos } => {
            let text = disk(before.files[pos].path);
            on_file_keeps_the_run(before, text);
            let next = before.files.take(pos + 1);
            assert(next.drop_last() == before.files.take(pos));
            assert(next.last() == before.files[pos]);
            lemma_present_is_known(before, pos);
        },
        PhaseView::Applying { pos, checksum } => {
            on_applied_keeps_the_run(before);
        },
        PhaseView::Recording { pos, checksum } => {
            on_recorded_keeps_the_run(before);
            let entry = AppliedView {
                version: before.files[pos].version,
                file: before.files[pos].name,
                checksum,
                direction: MigrationDirection::Up,
            };
            let grown = RunView { applied: before.applied.push(entry), ..before };
            let next = before.files.take(pos + 1);
            assert(next.drop_last() == before.files.take(pos));
            assert(next.last() == before.files[pos]);
            lemma_present_is_known(before, pos);
            assert(applied_versions(grown.applied) =~= applied_versions(before.applied).push(
                entry.version,
            ));
            advance_keeps_the_run(grown, pos + 1);
            lemma_advance_reports(grown, pos + 1, disk);
        },
        PhaseView::Finished => {},
    }
}

proof fn lemma_run_reports(states: Seq<RunView>, disk: Disk, i: int)
    requires
        is_run(states, disk),
        0 <= i < states.len(),
    ensures
        states[i].wf(),
        reports_hold(states[i], disk),
        states[i].files == states[0].files,
    decreases i,
{
    if i > 0 {
        lemma_run_reports(states, disk, i - 1);
        assert(steps(states[i - 1], states[i], disk));
        lemma_step_reports(states[i - 1], states[i], disk);
    }
}

/// A whole run reports what it did: every file that the ledger lacked, in order,
/// with the checksum of the text that was read, and a warning for exactly those
/// of them that have a breaking header.
pub proof fn a_whole_run_reports_what_it_did(states: Seq<RunView>, disk: Disk)
    requires
        is_run(states, disk),
        states.last().phase is Finished,
    ensures
        states.last().result().applied == entries(
            states[0].files,
            row_versions(states.last().ledger),
            disk,
        ),
        states.last().result().warnings == warnings_about(
            states[0].files,
            row_versions(states.last().ledger),
            disk,
        ),
{
    let last = states.last();
    lemma_run_reports(states, disk, states.len() - 1);
    assert(last.files.take(last.files.len() as int) == last.files);
}

/// Pending migrations come in ascending order, none of them twice.
pub proof fn pending_ascends(files: Seq<FileView>, known: Seq<u32>)
    requires
        consecutive(file_versions(files)),
    ensures
        forall|i: int, j: int|
            0 <= i < j < pending(files, known).len() ==> #[trigger] pending(files, known)[i]
                < #[trigger] pending(files, known)[j],
    decreases files.len(),
{
    if files.len() > 0 {
        let front = files.drop_last();
        let versions = file_versions(files);
        assert(file_versions(front) =~= versions.drop_last());
        assert(consecutive(file_versions(front))) by {
            assert forall|i: int, j: int|
                0 <= i <= j < file_versions(front).len() implies #[trigger] file_versions(front)[j]
                - #[trigger] file_versions(front)[i] == j - i by {
                assert(versions[j] - versions[i] == j - i);
            }
        }
        pending_ascends(front, known);
        let inner = pending(front, known);
        assert forall|i: int| 0 <= i < inner.len() implies #[trigger] inner[i]
            < files.last().version by {
            assert(inner.contains(inner[i]));
            pending_is_what_the_ledger_lacks(front, known, inner[i]);
            let k = choose|k: int|
                0 <= k < file_versions(front).len() && file_versions(front)[k] == inner[i];
            assert(versions[k] == inner[i]);
            assert(versions[versions.len() - 1] - versions[k] == versions.len() - 1 - k);
        }
    }
}

/// A strict run never applies a migration with a breaking header; any other run
/// applies it and warns.
pub proof fn strict_runs_refuse_breaking_changes(run: RunView, text: Seq<char>)
    requires
        run.phase is Reading,
        breaking(text),
    ensures
        run.on_file(text) is Err <==> run.strict,
        !run.strict ==> run.on_file(text)->Ok_0.0.warnings.len() == run.warnings.len() + 1,
{
}

/// A migration that was edited after it was applied stops the run before
/// anything is applied.
pub proof fn an_edited_migration_stops_the_run(run: RunView, row: int, text: Seq<char>)
    requires
        run.wf(),
        run.phase == (PhaseView::Verifying { row }),
        checksum_of(text) != run.ledger[row].checksum,
    ensures
        run.on_file(text) is Err,
        run.untouched(),
{
}

// --- The executable run ------------------------------------------------------

#[derive(Debug)]
enum Phase {
    Ledger,
    Verifying { row: usize },
    Reading { pos: usize },
    Applying { pos: usize, checksum: String },
    Recording { pos: usize, checksum: String },
    Finished,
}

/// A migration run in progress.
#[derive(Debug)]
pub struct MigrationRun {
    files: Vec<MigrationFile>,
    supported: u32,
    engram_version: String,
    strict: bool,
    ledger: Vec<LedgerRow>,
    applied: Vec<AppliedMigration>,
    skipped: Vec<u32>,
    warnings: Vec<MigrationWarning>,
    phase: Phase,
}

impl View for MigrationRun {
    type V = RunView;

    closed spec fn view(&self) -> RunView {
        RunView {
            files: self.files.deep_view(),
            supported: self.supported,
            engram_version: self.engram_version@,
            strict: self.strict,
            ledger: self.ledger.deep_view(),
            applied: self.applied.deep_view(),
            skipped: self.skipped@,
            warnings: self.warnings.deep_view(),
            phase: match self.phase {
                Phase::Ledger => PhaseView::Ledger,
                Phase::Verifying { row } => PhaseView::Verifying { row: row as int },
                Phase::Reading { pos } => PhaseView::Reading { pos: pos as int },
                Phase::Applying { pos, checksum } => PhaseView::Applying {
                    pos: pos as int,
                    checksum: checksum@,
                },
                Phase::Recording { pos, checksum } => PhaseView::Recording {
                    pos: pos as int,
                    checksum: checksum@,
                },
                Phase::Finished => PhaseView::Finished,
            },
        }
    }
}

fn clone_applied(v: &Vec<AppliedMigration>) -> (r: Vec<AppliedMigration>)
    ensures
        r.deep_view() == v.deep_view(),
{
    let mut out: Vec<AppliedMigration> = Vec::new();
    let mut i: usize = 0;
    while i < v.len()
        invariant
            i <= v@.len(),
            out@.len() == i,
            forall|k: int| 0 <= k < i ==> (#[trigger] out@[k]).deep_view() == v@[k].deep_view(),
        decreases v@.len() - i,
    {
        out.push(
            AppliedMigration {
                version: v[i].version,
                file: v[i].file.clone(),
                checksum: v[i].checksum.clone(),
                direction: v[i].direction,
            },
        );
        i = i + 1;
    }
    assert(out.deep_view() =~= v.deep_view());
    out
}

fn clone_warnings(v: &Vec<MigrationWarning>) -> (r: Vec<MigrationWarning>)
    ensures
        r.deep_view() == v.deep_view(),
{
    let mut out: Vec<MigrationWarning> = Vec::new();
    let mut i: usize = 0;
    while i < v.len()
        invariant
            i <= v@.len(),
            out@.len() == i,
            forall|k: int| 0 <= k < i ==> (#[trigger] out@[k]).deep_view() == v@[k].deep_view(),
        decreases v@.len() - i,
    {
        out.push(
            MigrationWarning {
                version: v[i].version,
                file: v[i].file.clone(),
                message: v[i].message.clone(),
            },
        );
        i = i + 1;
    }
    assert(out.deep_view() =~= v.deep_view());
    out
}

fn clone_versions(v: &Vec<u32>) -> (r: Vec<u32>)
    ensures
        r@ == v@,
{
    let mut out: Vec<u32> = Vec::new();
    let mut i: usize = 0;
    while i < v.len()
        invariant
            i <= v@.len(),
            out@ == v@.take(i as int),
        decreases v@.len() - i,
    {
        out.push(v[i]);
        i = i + 1;
    }
    out
}

fn has_version(versions: &Vec<u32>, v: u32) -> (r: bool)
    ensures
        r == versions@.contains(v),
{
    let mut i: usize = 0;
    while i < versions.len()
        invariant
            i <= versions@.len(),
            forall|k: int| 0 <= k < i ==> versions@[k] != v,
        decreases versions@.len() - i,
    {
        if versions[i] == v {
            return true;
        }
        i = i + 1;
    }
    false
}

fn highest_of(versions: &Vec<u32>) -> (r: u32)
    ensures
        r == highest(versions@),
{
    let mut best: u32 = 0;
    let mut i: usize = 0;
    while i < versions.len()
        invariant
            i <= versions@.len(),
            best == highest(versions@.take(i as int)),
        decreases versions@.len() - i,
    {
        assert(versions@.take(i + 1).drop_last() == versions@.take(i as int));
        if best < versions[i] {
            best = versions[i];
        }
        i = i + 1;
    }
    assert(versions@.take(i as int) == versions@);
    best
}

fn versions_of_rows(rows: &Vec<LedgerRow>) -> (r: Vec<u32>)
    ensures
        r@ == row_versions(rows.deep_view()),
{
    let mut out: Vec<u32> = Vec::new();
    let mut i: usize = 0;
    while i < rows.len()
        invariant
            i <= rows@.len(),
            out@ == row_versions(rows.deep_view()).take(i as int),
        decreases rows@.len() - i,
    {
        out.push(rows[i].version);
        i = i + 1;
    }
    assert(row_versions(rows.deep_view()).take(i as int) == row_versions(rows.deep_view()));
    out
}

fn versions_of_files(files: &Vec<MigrationFile>) -> (r: Vec<u32>)
    ensures
        r@ == file_versions(files.deep_view()),
{
    let mut out: Vec<u32> = Vec::new();
    let mut i: usize = 0;
    while i < files.len()
        invariant
            i <= files@.len(),
            out@ == file_versions(files.deep_view()).take(i as int),
        decreases files@.len() - i,
    {
        out.push(files[i].version);
        i = i + 1;
    }
    assert(file_versions(files.deep_view()).take(i as int) == file_versions(files.deep_view()));
    out
}

fn versions_of_manifest(manifest: &Manifest) -> (r: Vec<u32>)
    ensures
        r@ == manifest.declared(),
{
    let mut out: Vec<u32> = Vec::new();
    let mut i: usize = 0;
    while i < manifest.applied_migrations.len()
        invariant
            i <= manifest.applied_migrations@.len(),
            out@ == manifest.declared().take(i as int),
        decreases manifest.applied_migrations@.len() - i,
    {
        out.push(manifest.applied_migrations[i].version);
        i = i + 1;
    }
    assert(manifest.declared().take(i as int) == manifest.declared());
    out
}

fn find_first_outside(versions: &Vec<u32>, known: &Vec<u32>) -> (r: Option<u32>)
    ensures
        r == first_outside(versions@, known@),
{
    let mut i: usize = 0;
    assert(versions@.skip(0) == versions@);
    while i < versions.len()
        invariant
            i <= versions@.len(),
            first_outside(versions@.skip(i as int), known@) == first_outside(versions@, known@),
        decreases versions@.len() - i,
    {
        assert(versions@.skip(i as int)[0] == versions@[i as int]);
        assert(versions@.skip(i as int).drop_first() == versions@.skip(i + 1));
        if !has_version(known, versions[i]) {
            return Some(versions[i]);
        }
        i = i + 1;
    }
    None
}

fn find_least_outside(versions: &Vec<u32>, known: &Vec<u32>) -> (r: Option<u32>)
    ensures
        r == least_outside(versions@, known@),
{
    let mut best: Option<u32> = None;
    let mut i: usize = 0;
    while i < versions.len()
        invariant
            i <= versions@.len(),
            best == least_outside(versions@.take(i as int), known@),
        decreases versions@.len() - i,
    {
        assert(versions@.take(i + 1).drop_last() == versions@.take(i as int));
        let v: u32 = versions[i];
        if !has_version(known, v) {
            best = match best {
                Some(b) if b <= v => Some(b),
                _ => Some(v),
            };
        }
        i = i + 1;
    }
    assert(versions@.take(i as int) == versions@);
    best
}

fn find_first_break(versions: &Vec<u32>) -> (r: Option<usize>)
    ensures
        match r {
            Some(i) => 1 <= i < versions@.len() && first_break(versions@, 1) == Some(i as int),
            None => first_break(versions@, 1) is None,
        },
{
    let mut i: usize = 1;
    while i < versions.len()
        invariant
            1 <= i,
            i <= versions@.len() || versions@.len() == 0,
            first_break(versions@, i as int) == first_break(versions@, 1),
        decreases versions@.len() - i,
    {
        if versions[i] as u64 != versions[i - 1] as u64 + 1 {
            return Some(i);
        }
        i = i + 1;
    }
    None
}

/// Where no position breaks the sequence, the versions are consecutive.
proof fn lemma_no_break(versions: Seq<u32>, i: int)
    requires
        1 <= i,
        first_break(versions, i) is None,
        forall|a: int, b: int|
            0 <= a <= b < versions.len() && b < i ==> #[trigger] versions[b] - #[trigger] versions[a]
                == b - a,
    ensures
        consecutive(versions),
    decreases versions.len() - i,
{
    if i < versions.len() {
        assert forall|a: int, b: int| 0 <= a <= b < versions.len() && b < i + 1 implies
            #[trigger] versions[b] - #[trigger] versions[a] == b - a by {
            if b == i && a < i {
                assert(versions[i - 1] - versions[a] == i - 1 - a);
            }
        }
        lemma_no_break(versions, i + 1);
    }
}

fn find_start_fault(versions: &Vec<u32>, declared: &Vec<u32>) -> (r: Option<Error>)
    ensures
        r.deep_view() == start_fault(versions@, declared@),
        r is None ==> consecutive(versions@),
{
    if let Some(v) = find_first_outside(versions, declared) {
        return Some(
            Error::MigrationInvariant(
                "migration file version ".to_owned().concat(decimal(v as u128).as_str()).concat(
                    " is on disk but not declared in the manifest",
                ),
            ),
        );
    }
    if let Some(v) = find_least_outside(declared, versions) {
        return Some(
            Error::MigrationInvariant(
                "manifest declares migration ".to_owned().concat(decimal(v as u128).as_str()).concat(
                    " but the file is missing from disk",
                ),
            ),
        );
    }
    if let Some(i) = find_first_break(versions) {
        if versions[i] == versions[i - 1] {
            return Some(
                Error::MigrationInvariant(
                    "migration version ".to_owned().concat(
                        decimal(versions[i] as u128).as_str(),
                    ).concat(" occurs twice"),
                ),
            );
        }
        return Some(
            Error::MigrationInvariant(
                "migration versions leave a gap between ".to_owned().concat(
                    decimal(versions[i - 1] as u128).as_str(),
                ).concat(" and ").concat(decimal(versions[i] as u128).as_str()),
            ),
        );
    }
    proof {
        lemma_no_break(versions@, 1);
    }
    None
}

/// The files of a directory, as a run sees them.
pub open spec fn listed(entries: Seq<DirEntry>) -> Seq<FileView> {
    ranked(selected(entries)).map_values(|f: MigrationFile| f.deep_view())
}

/// One of the files has that version and that name.
pub open spec fn has_file(files: Seq<FileView>, version: u32, name: Seq<char>) -> bool {
    exists|i: int|
        0 <= i < files.len() && (#[trigger] files[i]).version == version && files[i].name == name
}

/// The first migration from position `i` on that is declared but has no file of
/// its version and name.
pub open spec fn first_misnamed(
    declared: Seq<ManifestMigration>,
    files: Seq<FileView>,
    i: int,
) -> Option<int>
    decreases declared.len() - i,
{
    if i < 0 || i >= declared.len() {
        None
    } else if !has_file(files, declared[i].version, declared[i].file@) {
        Some(i)
    } else {
        first_misnamed(declared, files, i + 1)
    }
}

/// Why a run cannot start with these files, if so: a declared file is missing,
/// and another one has its version.
pub open spec fn name_fault(
    declared: Seq<ManifestMigration>,
    files: Seq<FileView>,
) -> Option<ErrorView> {
    match first_misnamed(declared, files, 0) {
        Some(i) => Some(
            ErrorView::MigrationInvariant(
                "manifest declares migration "@ + decimal_of(declared[i].version as nat) + " as "@
                    + declared[i].file@ + " but that file is missing from disk"@,
            ),
        ),
        None => None,
    }
}

fn find_name_fault(
    declared: &Vec<ManifestMigration>,
    files: &Vec<MigrationFile>,
) -> (r: Option<Error>)
    ensures
        r.deep_view() == name_fault(declared@, files.deep_view()),
{
    let ghost views = files.deep_view();
    let mut i: usize = 0;
    while i < declared.len()
        invariant
            i <= declared@.len(),
            views == files.deep_view(),
            first_misnamed(declared@, views, 0) == first_misnamed(declared@, views, i as int),
        decreases declared@.len() - i,
    {
        let mut found = false;
        let mut k: usize = 0;
        while k < files.len()
            invariant
                i < declared@.len(),
                k <= files@.len(),
                views == files.deep_view(),
                found ==> has_file(views, declared@[i as int].version, declared@[i as int].file@),
                !found ==> forall|m: int|
                    0 <= m < k ==> !((#[trigger] views[m]).version == declared@[i as int].version
                        && views[m].name == declared@[i as int].file@),
            decreases files@.len() - k,
        {
            assert(views[k as int] == files@[k as int].deep_view());
            if files[k].version == declared[i].version && same_text(
                files[k].name.as_str(),
                declared[i].file.as_str(),
            ) {
                found = true;
            }
            k = k + 1;
        }
        if !found {
            return Some(
                Error::MigrationInvariant(
                    "manifest declares migration ".to_owned().concat(
                        decimal(declared[i].version as u128).as_str(),
                    ).concat(" as ").concat(declared[i].file.as_str()).concat(
                        " but that file is missing from disk",
                    ),
                ),
            );
        }
        i = i + 1;
    }
    None
}

proof fn lemma_none_misnamed(declared: Seq<ManifestMigration>, files: Seq<FileView>, i: int)
    requires
        0 <= i <= declared.len(),
    ensures
        first_misnamed(declared, files, i) is None <==> forall|k: int|
            i <= k < declared.len() ==> has_file(
                files,
                (#[trigger] declared[k]).version,
                declared[k].file@,
            ),
    decreases declared.len() - i,
{
    if i < declared.len() {
        lemma_none_misnamed(declared, files, i + 1);
    }
}

proof fn lemma_all_inside(versions: Seq<u32>, known: Seq<u32>)
    requires
        first_outside(versions, known) is None,
    ensures
        forall|i: int| 0 <= i < versions.len() ==> known.contains(#[trigger] versions[i]),
    decreases versions.len(),
{
    if versions.len() > 0 {
        let rest = versions.drop_first();
        lemma_all_inside(rest, known);
        assert forall|i: int| 0 <= i < versions.len() implies known.contains(
            #[trigger] versions[i],
        ) by {
            if i > 0 {
                assert(rest[i - 1] == versions[i]);
            }
        }
    }
}

/// A run starts only where the files on disk match the manifest's list: each
/// migration of the list has a file of its version and name, and each file has a
/// version that the list declares.
pub proof fn a_started_run_has_the_declared_files(
    manifest: Manifest,
    dir: Seq<char>,
    entries: Seq<DirEntry>,
    running: Seq<char>,
)
    requires
        refusal(manifest, dir, Some(entries), running) is None,
    ensures
        forall|k: int|
            0 <= k < manifest.applied_migrations@.len() ==> has_file(
                listed(entries),
                (#[trigger] manifest.applied_migrations@[k]).version,
                manifest.applied_migrations@[k].file@,
            ),
        forall|k: int|
            0 <= k < listed(entries).len() ==> manifest.declared().contains(
                (#[trigger] listed(entries)[k]).version,
            ),
{
    let files = listed(entries);
    lemma_none_misnamed(manifest.applied_migrations@, files, 0);
    lemma_all_inside(file_versions(files), manifest.declared());
    assert forall|k: int| 0 <= k < files.len() implies manifest.declared().contains(
        (#[trigger] files[k]).version,
    ) by {
        assert(file_versions(files)[k] == files[k].version);
    }
}

/// Why a run cannot start, if so.
pub open spec fn refusal(
    manifest: Manifest,
    dir: Seq<char>,
    entries: Option<Seq<DirEntry>>,
    running: Seq<char>,
) -> Option<ErrorView> {
    if too_old(running, manifest.engram_version_min@) {
        Some(release_fault(running, manifest.engram_version_min@))
    } else {
        match entries {
            None => Some(ErrorView::Manifest("migrations directory does not exist: "@ + dir)),
            Some(entries) => {
                let files = listed(entries);
                match start_fault(file_versions(files), manifest.declared()) {
                    Some(fault) => Some(fault),
                    None => name_fault(manifest.applied_migrations@, files),
                }
            },
        }
    }
}

/// A run at its start.
pub open spec fn fresh_run(
    manifest: Manifest,
    files: Seq<FileView>,
    running: Seq<char>,
    strict: bool,
) -> RunView {
    RunView {
        files,
        supported: manifest.version,
        engram_version: running,
        strict,
        ledger: Seq::empty(),
        applied: Seq::empty(),
        skipped: Seq::empty(),
        warnings: Seq::empty(),
        phase: PhaseView::Ledger,
    }
}

impl MigrationRun {
    /// Starts a run over the entries of the migrations directory `dir`; `None`
    /// stands for a directory that does not exist. The ledger is to be read
    /// next.
    pub fn begin(
        manifest: &Manifest,
        dir: &str,
        entries: Option<Vec<DirEntry>>,
        engram_version: &str,
        strict: bool,
    ) -> (r: Result<MigrationRun, Error>)
        ensures
            match r {
                Ok(run) => {
                    &&& refusal(
                        *manifest,
                        dir@,
                        match entries {
                            Some(e) => Some(e@),
                            None => None,
                        },
                        engram_version@,
                    ) is None
                    &&& run@ == fresh_run(
                        *manifest,
                        listed(entries->0@),
                        engram_version@,
                        strict,
                    )
                    &&& run@.wf()
                },
                Err(e) => refusal(
                    *manifest,
                    dir@,
                    match entries {
                        Some(e) => Some(e@),
                        None => None,
                    },
                    engram_version@,
                ) == Some(e.deep_view()),
            },
    {
        if is_too_old(engram_version, manifest.engram_version_min.as_str()) {
            return Err(
                Error::Manifest(
                    "Engram ".to_owned().concat(engram_version).concat(
                        " is older than the manifest's minimum ",
                    ).concat(manifest.engram_version_min.as_str()),
                ),
            );
        }
        match list_migration_files(dir, entries) {
            Err(e) => Err(e),
            Ok(files) => {
                let versions = versions_of_files(&files);
                let declared = versions_of_manifest(manifest);
                assert(files.deep_view() =~= listed(entries->0@));
                if let Some(e) = find_start_fault(&versions, &declared) {
                    return Err(e);
                }
                if let Some(e) = find_name_fault(&manifest.applied_migrations, &files) {
                    return Err(e);
                }
                let run = MigrationRun {
                    files,
                    supported: manifest.version,
                    engram_version: engram_version.to_owned(),
                    strict,
                    ledger: Vec::new(),
                    applied: Vec::new(),
                    skipped: Vec::new(),
                    warnings: Vec::new(),
                    phase: Phase::Ledger,
                };
                proof {
                    assert(run@.ledger =~= Seq::<LedgerView>::empty());
                    assert(run@.applied =~= Seq::<AppliedView>::empty());
                    assert(run@.skipped =~= Seq::<u32>::empty());
                    assert(run@.warnings =~= Seq::<WarningView>::empty());
                    assert(row_versions(run@.ledger) =~= Seq::<u32>::empty());
                }
                Ok(run)
            },
        }
    }

    fn versions_present(&self) -> (r: Vec<u32>)
        ensures
            r@ == self@.present(),
    {
        let mut out = versions_of_rows(&self.ledger);
        let ghost rows = out@;
        let mut i: usize = 0;
        assert(applied_versions(self.applied.deep_view()).take(0) =~= Seq::<u32>::empty());
        while i < self.applied.len()
            invariant
                i <= self.applied@.len(),
                out@ == rows + applied_versions(self.applied.deep_view()).take(i as int),
            decreases self.applied@.len() - i,
        {
            let ghost versions = applied_versions(self.applied.deep_view());
            assert(versions.take(i + 1) =~= versions.take(i as int).push(versions[i as int]));
            out.push(self.applied[i].version);
            i = i + 1;
        }
        assert(applied_versions(self.applied.deep_view()).take(i as int) =~= applied_versions(
            self.applied.deep_view(),
        ));
        out
    }

    fn advance_from(&mut self, start: usize) -> (r: Action)
        ensures
            (final(self)@, r.deep_view()) == old(self)@.advance(start as int),
    {
        let present = self.versions_present();
        let mut pos: usize = start;
        let ghost first = self@;
        while pos < self.files.len()
            invariant
                first == old(self)@,
                present@ == self@.present(),
                self@.advance(pos as int) == first.advance(start as int),
            decreases self.files@.len() - pos,
        {
            let version: u32 = self.files[pos].version;
            assert(self@.files[pos as int].version == version);
            if has_version(&present, version) {
                let ghost before = self@;
                self.skipped.push(version);
                assert(self@ == RunView { skipped: before.skipped.push(version), ..before });
            } else {
                let path = self.files[pos].path.clone();
                let ghost before = self@;
                self.phase = Phase::Reading { pos };
                assert(self@ == RunView { phase: PhaseView::Reading { pos: pos as int }, ..before });
                return Action::ReadPending { path };
            }
            pos = pos + 1;
        }
        let result = MigrationResult {
            applied: clone_applied(&self.applied),
            skipped: clone_versions(&self.skipped),
            current_version: highest_of(&present),
            warnings: clone_warnings(&self.warnings),
        };
        let ghost before = self@;
        self.phase = Phase::Finished;
        assert(self@ == RunView { phase: PhaseView::Finished, ..before });
        Action::Finish(result)
    }

    fn verify_from(&mut self, row: usize) -> (r: Action)
        ensures
            (final(self)@, r.deep_view()) == old(self)@.verify(row as int),
    {
        if row < self.ledger.len() {
            let file = self.ledger[row].migration.clone();
            let ghost before = self@;
            self.phase = Phase::Verifying { row };
            assert(self@ == RunView { phase: PhaseView::Verifying { row: row as int }, ..before });
            Action::ReadApplied { file }
        } else {
            self.advance_from(0)
        }
    }

    /// Takes the rows of the ledger.
    pub fn ledger_read(&mut self, rows: Vec<LedgerRow>) -> (r: Result<Action, Error>)
        requires
            old(self)@.wf(),
            old(self)@.phase is Ledger,
        ensures
            match r {
                Ok(action) => {
                    &&& old(self)@.on_ledger(rows.deep_view()) == Ok::<
                        (RunView, ActionView),
                        ErrorView,
                    >((final(self)@, action.deep_view()))
                    &&& final(self)@.wf()
                },
                Err(e) => {
                    &&& old(self)@.on_ledger(rows.deep_view()) == Err::<
                        (RunView, ActionView),
                        ErrorView,
                    >(e.deep_view())
                    &&& final(self)@ == old(self)@
                },
            },
    {
        let top: u32 = highest_of(&versions_of_rows(&rows));
        if top > self.supported {
            return Err(Error::SchemaTooNew { db: top, supported: self.supported });
        }
        let ghost before = self@;
        proof {
            on_ledger_keeps_the_run(before, rows.deep_view());
        }
        self.ledger = rows;
        assert(self@ == RunView { ledger: rows.deep_view(), ..before });
        Ok(self.verify_from(0))
    }

    fn warning_at(&self, pos: usize) -> (r: MigrationWarning)
        requires
            pos < self@.files.len(),
        ensures
            r.deep_view() == (WarningView {
                version: self@.files[pos as int].version,
                file: self@.files[pos as int].name,
                message: breaking_message(),
            }),
    {
        assert(self@.files[pos as int] == self.files@[pos as int].deep_view());
        MigrationWarning {
            version: self.files[pos].version,
            file: self.files[pos].name.clone(),
            message:
                "migration file contains a BREAKING: header and may drop or transform data".to_owned(),
        }
    }

    /// Takes the text of the file that was to be read.
    pub fn file_read(&mut self, text: String) -> (r: Result<Action, Error>)
        requires
            old(self)@.wf(),
            old(self)@.phase is Verifying || old(self)@.phase is Reading,
        ensures
            match r {
                Ok(action) => {
                    &&& old(self)@.on_file(text@) == Ok::<(RunView, ActionView), ErrorView>(
                        (final(self)@, action.deep_view()),
                    )
                    &&& final(self)@.wf()
                    &&& 0 <= final(self)@.steps_left() < old(self)@.steps_left()
                },
                Err(e) => {
                    &&& old(self)@.on_file(text@) == Err::<(RunView, ActionView), ErrorView>(
                        e.deep_view(),
                    )
                    &&& final(self)@ == old(self)@
                },
            },
    {
        let ghost before = self@;
        let checksum = sha256_of_text(text.as_str());
        match self.phase {
            Phase::Verifying { row } => {
                assert(before.ledger[row as int] == self.ledger@[row as int].deep_view());
                let rows: usize = self.ledger.len();
                assert(row < rows);
                let stored = self.ledger[row].checksum.clone();
                if !same_text(checksum.as_str(), stored.as_str()) {
                    return Err(
                        Error::ChecksumMismatch {
                            version: self.ledger[row].version,
                            file: self.ledger[row].migration.clone(),
                            stored,
                            file_checksum: checksum,
                        },
                    );
                }
                proof {
                    on_file_keeps_the_run(before, text@);
                }
                Ok(self.verify_from(row + 1))
            },
            Phase::Reading { pos } => {
                assert(before.files[pos as int] == self.files@[pos as int].deep_view());
                let version: u32 = self.files[pos].version;
                let mut warning: Option<MigrationWarning> = None;
                if contains_breaking_marker(text.as_str()) {
                    if self.strict {
                        return Err(
                            Error::MigrationInvariant(
                                "strict mode refuses destructive migration ".to_owned().concat(
                                    decimal(version as u128).as_str(),
                                ).concat(" (").concat(self.files[pos].path.as_str()).concat(
                                    "): ",
                                ).concat(
                                    "migration file contains a BREAKING: header and may drop or transform data",
                                ),
                            ),
                        );
                    }
                    let entry = self.warning_at(pos);
                    let ghost old_warnings = self.warnings.deep_view();
                    self.warnings.push(entry);
                    warning = Some(self.warning_at(pos));
                    assert(self.warnings.deep_view() =~= old_warnings.push(entry.deep_view()));
                }
                proof {
                    on_file_keeps_the_run(before, text@);
                }
                self.phase = Phase::Applying { pos, checksum };
                let batch = "BEGIN TRANSACTION;\n".to_owned().concat(text.as_str()).concat(
                    "\n;\nCOMMIT TRANSACTION;",
                );
                Ok(Action::Apply { version, text: batch, warning })
            },
            _ => {
                assert(false);
                Err(Error::Other(String::new()))
            },
        }
    }

    /// Notes that the migration was applied.
    pub fn applied(&mut self) -> (r: Action)
        requires
            old(self)@.wf(),
            old(self)@.phase is Applying,
        ensures
            (final(self)@, r.deep_view()) == old(self)@.on_applied(),
            final(self)@.wf(),
            0 <= final(self)@.steps_left() < old(self)@.steps_left(),
    {
        let ghost before = self@;
        proof {
            on_applied_keeps_the_run(before);
        }
        let (pos, checksum): (usize, String) = match &self.phase {
            Phase::Applying { pos, checksum } => (*pos, checksum.clone()),
            _ => (0, String::new()),
        };
        assert(before.files[pos as int] == self.files@[pos as int].deep_view());
        let action = Action::Record {
            statement: "CREATE engram_schema SET version = ".to_owned().concat(
                decimal(self.files[pos].version as u128).as_str(),
            ).concat(
                ", engram_ver = $engram_ver, migration = $migration, checksum = $checksum, direction = 'up', applied_at = time::now()",
            ),
            engram_ver: self.engram_version.clone(),
            migration: self.files[pos].name.clone(),
            checksum: checksum.clone(),
        };
        self.phase = Phase::Recording { pos, checksum };
        action
    }

    /// Notes that the applied migration was recorded in the ledger.
    pub fn recorded(&mut self) -> (r: Action)
        requires
            old(self)@.wf(),
            old(self)@.phase is Recording,
        ensures
            (final(self)@, r.deep_view()) == old(self)@.on_recorded(),
            final(self)@.wf(),
            0 <= final(self)@.steps_left() < old(self)@.steps_left(),
    {
        let ghost before = self@;
        proof {
            on_recorded_keeps_the_run(before);
        }
        let (pos, checksum): (usize, String) = match &self.phase {
            Phase::Recording { pos, checksum } => (*pos, checksum.clone()),
            _ => (0, String::new()),
        };
        assert(before.files[pos as int] == self.files@[pos as int].deep_view());
        let count: usize = self.files.len();
        assert(pos < count);
        let entry = AppliedMigration {
            version: self.files[pos].version,
            file: self.files[pos].name.clone(),
            checksum,
            direction: MigrationDirection::Up,
        };
        let ghost e = entry.deep_view();
        self.applied.push(entry);
        assert(self.applied.deep_view() =~= before.applied.push(e));
        assert(self@ == RunView { applied: before.applied.push(e), ..before });
        self.advance_from(pos + 1)
    }
}

// --- A manifest for a bare directory -----------------------------------------

/// The manifest that declares exactly the given files, for any release from
/// `0.1.0` on.
pub fn manifest_of_files(files: &Vec<MigrationFile>) -> (r: Manifest)
    ensures
        r.version == highest(file_versions(files.deep_view())),
        r.engram_version_min@ == "0.1.0"@,
        r.declared() == file_versions(files.deep_view()),
        r.applied_migrations@.len() == files@.len(),
        forall|i: int|
            0 <= i < files@.len() ==> (#[trigger] r.applied_migrations@[i]).file@ == files@[i].name@
                && r.applied_migrations@[i].description@ == Seq::<char>::empty(),
{
    let mut declared: Vec<ManifestMigration> = Vec::new();
    let mut i: usize = 0;
    while i < files.len()
        invariant
            i <= files@.len(),
            declared@.len() == i,
            forall|k: int|
                0 <= k < i ==> (#[trigger] declared@[k]).version == files@[k].version
                    && declared@[k].file@ == files@[k].name@ && declared@[k].description@
                    == Seq::<char>::empty(),
        decreases files@.len() - i,
    {
        declared.push(
            ManifestMigration {
                version: files[i].version,
                file: files[i].name.clone(),
                description: String::new(),
            },
        );
        i = i + 1;
    }
    let r = Manifest {
        version: highest_of(&versions_of_files(files)),
        engram_version_min: "0.1.0".to_owned(),
        applied_migrations: declared,
    };
    assert(r.declared() =~= file_versions(files.deep_view()));
    r
}

/// A manifest that declares exactly what is on disk never disagrees with it.
pub proof fn an_exact_manifest_agrees(manifest: Manifest, files: Seq<FileView>)
    requires
        manifest.applied_migrations@.len() == files.len(),
        forall|i: int|
            0 <= i < files.len() ==> (#[trigger] manifest.applied_migrations@[i]).version
                == files[i].version && manifest.applied_migrations@[i].file@ == files[i].name,
    ensures
        first_outside(file_versions(files), manifest.declared()) is None,
        least_outside(manifest.declared(), file_versions(files)) is None,
        name_fault(manifest.applied_migrations@, files) is None,
{
    let versions = file_versions(files);
    let declared = manifest.applied_migrations@;
    assert(manifest.declared() =~= versions);
    lemma_none_outside(versions, versions);
    lemma_none_least_outside(versions, versions);
    lemma_none_misnamed(declared, files, 0);
    assert forall|k: int| 0 <= k < declared.len() implies has_file(
        files,
        (#[trigger] declared[k]).version,
        declared[k].file@,
    ) by {
        assert(files[k].version == declared[k].version);
    }
}

proof fn lemma_none_outside(versions: Seq<u32>, known: Seq<u32>)
    requires
        forall|i: int| 0 <= i < versions.len() ==> known.contains(#[trigger] versions[i]),
    ensures
        first_outside(versions, known) is None,
    decreases versions.len(),
{
    if versions.len() > 0 {
        assert(known.contains(versions[0]));
        let rest = versions.drop_first();
        assert forall|i: int| 0 <= i < rest.len() implies known.contains(#[trigger] rest[i]) by {
            assert(rest[i] == versions[i + 1]);
        }
        lemma_none_outside(rest, known);
    }
}

proof fn lemma_none_least_outside(versions: Seq<u32>, known: Seq<u32>)
    requires
        forall|i: int| 0 <= i < versions.len() ==> known.contains(#[trigger] versions[i]),
    ensures
        least_outside(versions, known) is None,
    decreases versions.len(),
{
    if versions.len() > 0 {
        assert(known.contains(versions[versions.len() - 1]));
        let front = versions.drop_last();
        assert forall|i: int| 0 <= i < front.len() implies known.contains(#[trigger] front[i]) by {
            assert(front[i] == versions[i]);
        }
        lemma_none_least_outside(front, known);
    }
}

/// The least version outside is one that is declared and unknown, and no
/// smaller one is.
pub proof fn least_outside_is_the_least(versions: Seq<u32>, known: Seq<u32>)
    ensures
        match least_outside(versions, known) {
            Some(v) => versions.contains(v) && !known.contains(v) && forall|i: int|
                0 <= i < versions.len() && !known.contains(#[trigger] versions[i]) ==> v
                    <= versions[i],
            None => forall|i: int|
                0 <= i < versions.len() ==> known.contains(#[trigger] versions[i]),
        },
    decreases versions.len(),
{
    if versions.len() > 0 {
        let front = versions.drop_last();
        least_outside_is_the_least(front, known);
        assert(forall|i: int| 0 <= i < front.len() ==> #[trigger] front[i] == versions[i]);
        assert(versions[versions.len() - 1] == versions.last());
        assert forall|i: int|
            0 <= i < versions.len() && i != versions.len() - 1 implies #[trigger] versions[i]
            == front[i] by {}
        if let Some(v) = least_outside(front, known) {
            let k = choose|k: int| 0 <= k < front.len() && front[k] == v;
            assert(versions[k] == v);
        }
    }
}

// --- The schema version ------------------------------------------------------

/// The schema version of the newest ledger row, zero where there is none; a
/// number beyond thirty-two bits keeps its low part.
pub fn schema_version_of(newest: Option<u64>) -> (r: u32)
    ensures
        r == match newest {
            Some(n) => n as nat % 0x1_0000_0000,
            None => 0,
        },
{
    match newest {
        Some(n) => {
            let low: u64 = n % 0x1_0000_0000;
            low as u32
        },
        None => 0,
    }
}

/// What a failed version query means: without a ledger table the version is
/// zero; anything else is a failure.
pub fn schema_version_failure(message: &str) -> (r: Result<u32, Error>)
    ensures
        match r {
            Ok(v) => occurs_in(message@, "does not exist"@) && v == 0,
            Err(e) => !occurs_in(message@, "does not exist"@) && e.deep_view()
                == ErrorView::Surreal(message@),
        },
{
    if contains_text(message, "does not exist") {
        Ok(0)
    } else {
        Err(Error::Surreal(message.to_owned()))
    }
}

/// The failure to read a migration file.
pub fn file_failure(path: &str, cause: &str) -> (r: Error)
    ensures
        r.deep_view() == (ErrorView::MigrationFile { path: path@, source: cause@ }),
{
    Error::MigrationFile { path: path.to_owned(), source: cause.to_owned() }
}

proof fn lemma_first_outside(versions: Seq<u32>, known: Seq<u32>)
    ensures
        first_outside(versions, known) is None <==> forall|i: int|
            0 <= i < versions.len() ==> known.contains(#[trigger] versions[i]),
    decreases versions.len(),
{
    if versions.len() > 0 {
        let rest = versions.drop_first();
        lemma_first_outside(rest, known);
        if known.contains(versions[0]) {
            if forall|i: int| 0 <= i < rest.len() ==> known.contains(#[trigger] rest[i]) {
                assert forall|i: int| 0 <= i < versions.len() implies known.contains(
                    #[trigger] versions[i],
                ) by {
                    if i > 0 {
                        assert(rest[i - 1] == versions[i]);
                    }
                }
            }
            if forall|i: int| 0 <= i < versions.len() ==> known.contains(#[trigger] versions[i]) {
                assert forall|i: int| 0 <= i < rest.len() implies known.contains(
                    #[trigger] rest[i],
                ) by {
                    assert(versions[i + 1] == rest[i]);
                }
            }
        }
    }
}

proof fn lemma_first_break(versions: Seq<u32>, i: int)
    requires
        1 <= i,
    ensures
        first_break(versions, i) is None <==> forall|k: int|
            i <= k < versions.len() ==> #[trigger] versions[k] == versions[k - 1] + 1,
    decreases versions.len() - i,
{
    if i < versions.len() {
        lemma_first_break(versions, i + 1);
    }
}

proof fn lemma_first_misnamed(declared: Seq<ManifestMigration>, files: Seq<FileView>, i: int)
    requires
        0 <= i,
    ensures
        first_misnamed(declared, files, i) is None <==> forall|k: int|
            i <= k < declared.len() ==> has_file(
                files,
                (#[trigger] declared[k]).version,
                declared[k].file@,
            ),
    decreases declared.len() - i,
{
    if i < declared.len() {
        lemma_first_misnamed(declared, files, i + 1);
    }
}

/// The list declares a version.
pub open spec fn declares(list: Seq<ManifestMigration>, version: u32) -> bool {
    exists|m: int| 0 <= m < list.len() && (#[trigger] list[m]).version == version
}

/// Each version is the one before it and one more.
pub open spec fn in_sequence(files: Seq<FileView>) -> bool {
    forall|k: int| 0 < k < files.len() ==> (#[trigger] files[k]).version == files[k - 1].version + 1
}

proof fn lemma_declared(manifest: Manifest, version: u32)
    ensures
        manifest.declared().contains(version) <==> declares(
            manifest.applied_migrations@,
            version,
        ),
{
    let list = manifest.applied_migrations@;
    let declared = manifest.declared();
    assert forall|m: int| 0 <= m < list.len() implies #[trigger] declared[m] == list[m].version by {}
    if declared.contains(version) {
        let m = choose|m: int| 0 <= m < declared.len() && declared[m] == version;
        assert(list[m].version == version);
    }
    if declares(list, version) {
        let m = choose|m: int| 0 <= m < list.len() && (#[trigger] list[m]).version == version;
        assert(declared[m] == version);
    }
}

proof fn lemma_no_start_fault(manifest: Manifest, files: Seq<FileView>)
    ensures
        (start_fault(file_versions(files), manifest.declared()) is None) <==> {
            &&& forall|k: int|
                0 <= k < files.len() ==> declares(
                    manifest.applied_migrations@,
                    (#[trigger] files[k]).version,
                )
            &&& forall|m: int|
                0 <= m < manifest.declared().len() ==> file_versions(files).contains(
                    #[trigger] manifest.declared()[m],
                )
            &&& in_sequence(files)
        },
{
    let list = manifest.applied_migrations@;
    let versions = file_versions(files);
    let declared = manifest.declared();
    lemma_first_outside(versions, declared);
    least_outside_is_the_least(declared, versions);
    lemma_first_break(versions, 1);
    assert forall|k: int| 0 <= k < files.len() implies #[trigger] versions[k]
        == files[k].version by {}
    assert((first_outside(versions, declared) is None) <==> forall|k: int|
        0 <= k < files.len() ==> declares(list, (#[trigger] files[k]).version)) by {
        if first_outside(versions, declared) is None {
            assert forall|k: int| 0 <= k < files.len() implies declares(
                list,
                (#[trigger] files[k]).version,
            ) by {
                lemma_declared(manifest, versions[k]);
            }
        }
        if forall|k: int| 0 <= k < files.len() ==> declares(list, (#[trigger] files[k]).version) {
            assert forall|k: int| 0 <= k < versions.len() implies declared.contains(
                #[trigger] versions[k],
            ) by {
                assert(declares(list, files[k].version));
                lemma_declared(manifest, versions[k]);
            }
        }
    }
    assert((first_break(versions, 1) is None) <==> in_sequence(files)) by {
        if first_break(versions, 1) is None {
            assert forall|k: int| 0 < k < files.len() implies (#[trigger] files[k]).version
                == files[k - 1].version + 1 by {
                assert(versions[k] == versions[k - 1] + 1);
            }
        }
        if in_sequence(files) {
            assert forall|k: int| 1 <= k < versions.len() implies #[trigger] versions[k]
                == versions[k - 1] + 1 by {
                assert(files[k].version == files[k - 1].version + 1);
            }
        }
    }
    assert((least_outside(declared, versions) is None) <==> forall|m: int|
        0 <= m < declared.len() ==> versions.contains(#[trigger] declared[m])) by {
        if let Some(v) = least_outside(declared, versions) {
            let m = choose|m: int| 0 <= m < declared.len() && declared[m] == v;
            assert(!versions.contains(declared[m]));
        }
    }
}

/// A run starts exactly where it can: the release is not too old, the directory
/// exists, the files on disk are those that the manifest lists, by version and
/// name, and their versions follow one another without a gap.
pub proof fn a_run_starts_exactly_where_the_files_match(
    manifest: Manifest,
    dir: Seq<char>,
    entries: Seq<DirEntry>,
    running: Seq<char>,
)
    ensures
        (refusal(manifest, dir, Some(entries), running) is None) <==> {
            &&& !too_old(running, manifest.engram_version_min@)
            &&& forall|k: int|
                0 <= k < listed(entries).len() ==> declares(
                    manifest.applied_migrations@,
                    (#[trigger] listed(entries)[k]).version,
                )
            &&& forall|m: int|
                0 <= m < manifest.applied_migrations@.len() ==> has_file(
                    listed(entries),
                    (#[trigger] manifest.applied_migrations@[m]).version,
                    manifest.applied_migrations@[m].file@,
                )
            &&& in_sequence(listed(entries))
        },
        refusal(manifest, dir, None, running) is Some,
{
    let files = listed(entries);
    let list = manifest.applied_migrations@;
    let declared = manifest.declared();
    lemma_no_start_fault(manifest, files);
    lemma_first_misnamed(list, files, 0);
    assert forall|m: int| 0 <= m < list.len() implies #[trigger] declared[m] == list[m].version by {}
    if forall|m: int|
        0 <= m < list.len() ==> has_file(files, (#[trigger] list[m]).version, list[m].file@) {
        assert forall|m: int| 0 <= m < declared.len() implies file_versions(files).contains(
            #[trigger] declared[m],
        ) by {
            assert(has_file(files, list[m].version, list[m].file@));
            let k = choose|k: int|
                0 <= k < files.len() && (#[trigger] files[k]).version == list[m].version
                    && files[k].name == list[m].file@;
            assert(file_versions(files)[k] == declared[m]);
        }
    }
}

/// The files of a directory as a run takes them: those that are migrations, in
/// ascending order of their versions.
pub proof fn a_run_takes_the_listed_files(entries: Seq<DirEntry>)
    ensures
        listed(entries).len() == selected(entries).len(),
        forall|i: int, j: int|
            0 <= i <= j < listed(entries).len() ==> (#[trigger] listed(entries)[i]).version <= (
            #[trigger] listed(entries)[j]).version,
        forall|f: MigrationFile| #[trigger]
            selected(entries).contains(f) ==> listed(entries).contains(f.deep_view()),
{
    listing_ascends(entries);
    let sorted = ranked(selected(entries));
    ranked_is_a_sorted_permutation(selected(entries));
    assert(sorted.len() == selected(entries).len());
    assert forall|f: MigrationFile| #[trigger] selected(entries).contains(f) implies listed(
        entries,
    ).contains(f.deep_view()) by {
        ranked_keeps_membership(selected(entries), f);
        let k = choose|k: int| 0 <= k < sorted.len() && sorted[k] == f;
        assert(listed(entries)[k] == f.deep_view());
    }
    assert forall|i: int, j: int| 0 <= i <= j < listed(entries).len() implies (
    #[trigger] listed(entries)[i]).version <= (#[trigger] listed(entries)[j]).version by {
        assert(sorted[i].version <= sorted[j].version);
    }
}

/// What a run asks for at each step: to read the file that a ledger row names; to
/// read the next file that the database lacks; to run its text as one transaction,
/// with the warning, if it has one; to record it with the checksum of its text.
pub proof fn each_step_asks_for_the_next(run: RunView, text: Seq<char>, row: int, pos: int)
    ensures
        0 <= row < run.ledger.len() ==> run.verify(row).1 == (ActionView::ReadApplied {
            file: run.ledger[row].migration,
        }) && run.verify(row).0.phase == (PhaseView::Verifying { row }),
        row == run.ledger.len() ==> run.verify(row) == run.advance(0),
        run.phase == (PhaseView::Verifying { row }) ==> {
            &&& run.on_file(text) is Ok <==> checksum_of(text) == run.ledger[row].checksum
            &&& run.on_file(text) is Ok ==> run.on_file(text)->Ok_0 == run.verify(row + 1)
            &&& run.on_file(text) is Err ==> run.on_file(text)->Err_0 == (
            ErrorView::ChecksumMismatch {
                version: run.ledger[row].version,
                file: run.ledger[row].migration,
                stored: run.ledger[row].checksum,
                file_checksum: checksum_of(text),
            })
        },
        run.phase == (PhaseView::Reading { pos }) ==> {
            &&& run.on_file(text) is Ok <==> !(breaking(text) && run.strict)
            &&& run.on_file(text) is Ok ==> run.on_file(text)->Ok_0.0.phase == (
            PhaseView::Applying { pos, checksum: checksum_of(text) })
            &&& run.on_file(text) is Ok ==> run.on_file(text)->Ok_0.1 == (ActionView::Apply {
                version: run.files[pos].version,
                text: "BEGIN TRANSACTION;\n"@ + text + "\n;\nCOMMIT TRANSACTION;"@,
                warning: if breaking(text) {
                    Some(
                        WarningView {
                            version: run.files[pos].version,
                            file: run.files[pos].name,
                            message: breaking_message(),
                        },
                    )
                } else {
                    None
                },
            })
        },
        run.phase matches PhaseView::Applying { pos, checksum } ==> {
            &&& run.on_applied().0.phase == (PhaseView::Recording { pos, checksum })
            &&& run.on_applied().1 == (ActionView::Record {
                statement: "CREATE engram_schema SET version = "@ + decimal_of(
                    run.files[pos].version as nat,
                )
                    + ", engram_ver = $engram_ver, migration = $migration, checksum = $checksum, direction = 'up', applied_at = time::now()"@,
                engram_ver: run.engram_version,
                migration: run.files[pos].name,
                checksum,
            })
        },
{
}

/// A run goes on with the first file from a position on whose version the
/// database lacks, and reads it; where there is none, it reports what it did.
pub proof fn a_run_goes_on_with_the_next_pending_file(run: RunView, pos: int)
    requires
        0 <= pos <= run.files.len(),
    ensures
        ({
            let (after, action) = run.advance(pos);
            match action {
                ActionView::ReadPending { path } => exists|k: int|
                    {
                        &&& pos <= k < run.files.len()
                        &&& path == (#[trigger] run.files[k]).path
                        &&& after.phase == (PhaseView::Reading { pos: k })
                        &&& !run.present().contains(run.files[k].version)
                        &&& forall|j: int|
                            pos <= j < k ==> run.present().contains(
                                (#[trigger] run.files[j]).version,
                            )
                    },
                ActionView::Finish(result) => {
                    &&& after.phase is Finished
                    &&& result.applied == run.applied
                    &&& result.warnings == run.warnings
                    &&& result.current_version == highest(run.present())
                    &&& forall|j: int|
                        pos <= j < run.files.len() ==> run.present().contains(
                            (#[trigger] run.files[j]).version,
                        )
                },
                _ => false,
            }
        }),
    decreases run.files.len() - pos,
{
    if pos < run.files.len() {
        if run.present().contains(run.files[pos].version) {
            let next = RunView { skipped: run.skipped.push(run.files[pos].version), ..run };
            a_run_goes_on_with_the_next_pending_file(next, pos + 1);
            assert(next.present() == run.present());
            if let ActionView::ReadPending { path } = run.advance(pos).1 {
                let k = choose|k: int|
                    {
                        &&& pos + 1 <= k < next.files.len()
                        &&& path == (#[trigger] next.files[k]).path
                        &&& next.advance(pos + 1).0.phase == (PhaseView::Reading { pos: k })
                        &&& !next.present().contains(next.files[k].version)
                        &&& forall|j: int|
                            pos + 1 <= j < k ==> next.present().contains(
                                (#[trigger] next.files[j]).version,
                            )
                    };
                assert(path == run.files[k].path);
            }
        } else {
            assert(run.files[pos].path == run.advance(pos).1->path);
        }
    }
}

/// The ledger is refused exactly where it holds a version that is not supported.
pub proof fn a_newer_schema_is_refused(run: RunView, rows: Seq<LedgerView>)
    ensures
        run.on_ledger(rows) is Err <==> exists|i: int|
            0 <= i < rows.len() && (#[trigger] rows[i]).version > run.supported,
        run.on_ledger(rows) is Err ==> run.on_ledger(rows)->Err_0 == (ErrorView::SchemaTooNew {
            db: highest(row_versions(rows)),
            supported: run.supported,
        }),
        run.on_ledger(rows) is Ok ==> run.on_ledger(rows)->Ok_0 == (RunView {
            ledger: rows,
            ..run
        }).verify(0),
{
    let versions = row_versions(rows);
    highest_is_the_maximum(versions);
    assert forall|i: int| 0 <= i < rows.len() implies #[trigger] versions[i] == rows[i].version by {}
    if highest(versions) > run.supported {
        assert(versions.len() > 0) by {
            if versions.len() == 0 {
                assert(highest(versions) == 0);
            }
        }
        let i = choose|i: int| 0 <= i < versions.len() && versions[i] == highest(versions);
        assert(rows[i].version > run.supported);
    }
    if exists|i: int| 0 <= i < rows.len() && (#[trigger] rows[i]).version > run.supported {
        let i = choose|i: int| 0 <= i < rows.len() && (#[trigger] rows[i]).version > run.supported;
        assert(versions[i] <= highest(versions));
    }
}

proof fn lemma_rows_verified(states: Seq<RunView>, disk: Disk, i: int, row: int)
    requires
        is_run(states, disk),
        0 <= i < states.len(),
        !(states[i].phase is Ledger),
        0 <= row < states[i].ledger.len(),
        match states[i].phase {
            PhaseView::Verifying { row: r } => row <= r,
            _ => true,
        },
    ensures
        exists|k: int|
            0 <= k <= i && (#[trigger] states[k]).phase == (PhaseView::Verifying { row })
                && states[k].ledger == states[i].ledger,
    decreases i,
{
    let here = states[i];
    lemma_run_reports(states, disk, i);
    if here.phase == (PhaseView::Verifying { row }) {
        assert(states[i].ledger == here.ledger);
    } else {
        assert(i > 0);
        lemma_run_reports(states, disk, i - 1);
        let before = states[i - 1];
        assert(steps(before, here, disk));
        match before.phase {
            PhaseView::Ledger => {
                let rows = choose|rows: Seq<LedgerView>|
                    (#[trigger] before.on_ledger(rows)) is Ok && here == before.on_ledger(
                        rows,
                    )->Ok_0.0;
                let read = RunView { ledger: rows, ..before };
                if rows.len() == 0 {
                    lemma_advance_keeps_ledger(read, 0);
                }
            },
            PhaseView::Verifying { row: r } => {
                let text = choose|text: Seq<char>|
                    (#[trigger] before.on_file(text)) is Ok && here == before.on_file(
                        text,
                    )->Ok_0.0;
                if r + 1 >= before.ledger.len() {
                    lemma_advance_keeps_ledger(before, 0);
                }
                assert(here.ledger == before.ledger);
                lemma_rows_verified(states, disk, i - 1, row);
                let k = choose|k: int|
                    0 <= k <= i - 1 && (#[trigger] states[k]).phase == (PhaseView::Verifying {
                        row,
                    }) && states[k].ledger == before.ledger;
                assert(states[k].ledger == here.ledger);
            },
            PhaseView::Recording { pos, checksum } => {
                lemma_recorded_keeps_ledger(before);
                lemma_rows_verified(states, disk, i - 1, row);
                let k = choose|k: int|
                    0 <= k <= i - 1 && (#[trigger] states[k]).phase == (PhaseView::Verifying {
                        row,
                    }) && states[k].ledger == before.ledger;
                assert(states[k].ledger == here.ledger);
            },
            _ => {
                assert(here.ledger == before.ledger);
                lemma_rows_verified(states, disk, i - 1, row);
                let k = choose|k: int|
                    0 <= k <= i - 1 && (#[trigger] states[k]).phase == (PhaseView::Verifying {
                        row,
                    }) && states[k].ledger == before.ledger;
                assert(states[k].ledger == here.ledger);
            },
        }
    }
}

proof fn lemma_advance_keeps_ledger(run: RunView, pos: int)
    ensures
        run.advance(pos).0.ledger == run.ledger,
        run.advance(pos).0.phase is Reading || run.advance(pos).0.phase is Finished,
    decreases run.files.len() - pos,
{
    if 0 <= pos < run.files.len() && run.present().contains(run.files[pos].version) {
        lemma_advance_keeps_ledger(
            RunView { skipped: run.skipped.push(run.files[pos].version), ..run },
            pos + 1,
        );
    }
}

proof fn lemma_recorded_keeps_ledger(run: RunView)
    requires
        run.phase is Recording,
    ensures
        run.on_recorded().0.ledger == run.ledger,
{
    if let PhaseView::Recording { pos, checksum } = run.phase {
        let grown = RunView {
            applied: run.applied.push(
                AppliedView {
                    version: run.files[pos].version,
                    file: run.files[pos].name,
                    checksum,
                    direction: MigrationDirection::Up,
                },
            ),
            ..run
        };
        lemma_advance_keeps_ledger(grown, pos + 1);
    }
}

/// Every migration that was applied before is checked before another is: once a
/// run applies a file, it has read the file of each row of the ledger and found
/// the checksum that the row holds.
pub proof fn every_applied_migration_is_checked(
    states: Seq<RunView>,
    disk: Disk,
    i: int,
    row: int,
)
    requires
        is_run(states, disk),
        0 <= i < states.len(),
        states[i].phase is Reading || states[i].phase is Applying || states[i].phase is Recording
            || states[i].phase is Finished,
        0 <= row < states[i].ledger.len(),
    ensures
        exists|k: int, text: Seq<char>|
            {
                &&& 0 <= k < i
                &&& states[k].phase == (PhaseView::Verifying { row })
                &&& states[k + 1] == (#[trigger] states[k].on_file(text))->Ok_0.0
                &&& checksum_of(text) == states[i].ledger[row].checksum
            },
{
    lemma_rows_verified(states, disk, i, row);
    let k = choose|k: int|
        0 <= k <= i && (#[trigger] states[k]).phase == (PhaseView::Verifying { row })
            && states[k].ledger == states[i].ledger;
    let j = k + 1;
    assert(steps(states[j - 1], states[j], disk));
    let text = choose|text: Seq<char>|
        (#[trigger] states[k].on_file(text)) is Ok && states[j] == states[k].on_file(text)->Ok_0.0;
    assert(checksum_of(text) == states[k].ledger[row].checksum);
}

/// A file of a version and a name is among some files exactly where one of them
/// has both.
pub proof fn a_file_has_its_version_and_its_name(
    files: Seq<FileView>,
    version: u32,
    name: Seq<char>,
)
    ensures
        has_file(files, version, name) <==> exists|i: int|
            0 <= i < files.len() && (#[trigger] files[i]).version == version && files[i].name
                == name,
        breaking_message()
            == "migration file contains a BREAKING: header and may drop or transform data"@,
{
}

/// Why a run is refused: for a release that is too old; for a directory that does
/// not exist; for the first file that is not declared; for the lowest declared
/// version without a file; for a version that occurs twice or a gap.
pub proof fn a_refusal_says_why(
    manifest: Manifest,
    dir: Seq<char>,
    entries: Seq<DirEntry>,
    running: Seq<char>,
)
    ensures
        ({
            let minimum = manifest.engram_version_min@;
            let versions = file_versions(listed(entries));
            let declared = manifest.declared();
            let r = refusal(manifest, dir, Some(entries), running);
            &&& too_old(running, minimum) ==> r == Some(
                ErrorView::Manifest(
                    "Engram "@ + running + " is older than the manifest's minimum "@ + minimum,
                ),
            )
            &&& !too_old(running, minimum) ==> refusal(manifest, dir, None, running) == Some(
                ErrorView::Manifest("migrations directory does not exist: "@ + dir),
            )
            &&& !too_old(running, minimum) && first_outside(versions, declared) is Some ==> r
                == Some(
                ErrorView::MigrationInvariant(
                    "migration file version "@ + decimal_of(
                        first_outside(versions, declared)->0 as nat,
                    ) + " is on disk but not declared in the manifest"@,
                ),
            )
            &&& !too_old(running, minimum) && first_outside(versions, declared) is None
                && least_outside(declared, versions) is Some ==> r == Some(
                ErrorView::MigrationInvariant(
                    "manifest declares migration "@ + decimal_of(
                        least_outside(declared, versions)->0 as nat,
                    ) + " but the file is missing from disk"@,
                ),
            )
            &&& r is Some && !too_old(running, minimum) ==> r->0 is MigrationInvariant
        }),
{
}

/// The database holds a version exactly where a row of the ledger has it or this
/// run has applied it; what a run reports is what it has noted.
pub proof fn what_the_database_holds(run: RunView, v: u32)
    ensures
        run.present().contains(v) <==> {
            ||| exists|i: int| 0 <= i < run.ledger.len() && (#[trigger] run.ledger[i]).version == v
            ||| exists|i: int| 0 <= i < run.applied.len() && (#[trigger] run.applied[i]).version == v
        },
        run.result() == (ResultView {
            applied: run.applied,
            skipped: run.skipped,
            current_version: highest(run.present()),
            warnings: run.warnings,
        }),
{
    let a = row_versions(run.ledger);
    let b = applied_versions(run.applied);
    lemma_concat_contains(a, b, v);
    if a.contains(v) {
        let i = choose|i: int| 0 <= i < a.len() && a[i] == v;
        assert(run.ledger[i].version == v);
    }
    if b.contains(v) {
        let i = choose|i: int| 0 <= i < b.len() && b[i] == v;
        assert(run.applied[i].version == v);
    }
    if exists|i: int| 0 <= i < run.ledger.len() && (#[trigger] run.ledger[i]).version == v {
        let i = choose|i: int| 0 <= i < run.ledger.len() && (#[trigger] run.ledger[i]).version == v;
        assert(a[i] == v);
    }
    if exists|i: int| 0 <= i < run.applied.len() && (#[trigger] run.applied[i]).version == v {
        let i = choose|i: int|
            0 <= i < run.applied.len() && (#[trigger] run.applied[i]).version == v;
        assert(b[i] == v);
    }
}

} // verus!
