//! Errors of the storage layer, and what a migration run reports.
use vstd::prelude::*;
use crate::text::{decimal, decimal_of, same_text};

verus! {

/// An error of the storage layer. Variants are coarse, so that a backend can be
/// replaced without a change to what callers see.
#[derive(Debug)]
pub enum Error {
    /// The schema manifest could not be read or parsed, or does not fit the
    /// migrations directory or the running release.
    Manifest(String),
    /// A migration file could not be read.
    MigrationFile { path: String, source: String },
    /// The migration runner was given an inconsistent set of inputs.
    MigrationInvariant(String),
    /// An applied migration is recorded with another checksum than its file has.
    ChecksumMismatch { version: u32, file: String, stored: String, file_checksum: String },
    /// The database is ahead of what the running release supports.
    SchemaTooNew { db: u32, supported: u32 },
    /// The database reported a failure.
    Surreal(String),
    /// A ledger record is malformed.
    LedgerMalformed(String),
    /// An I/O failure of the adapter.
    Io(String),
    /// Any other unexpected behaviour of the backend.
    Other(String),
}

/// What an [`Error`] says.
pub enum ErrorView {
    Manifest(Seq<char>),
    MigrationFile { path: Seq<char>, source: Seq<char> },
    MigrationInvariant(Seq<char>),
    ChecksumMismatch {
        version: u32,
        file: Seq<char>,
        stored: Seq<char>,
        file_checksum: Seq<char>,
    },
    SchemaTooNew { db: u32, supported: u32 },
    Surreal(Seq<char>),
    LedgerMalformed(Seq<char>),
    Io(Seq<char>),
    Other(Seq<char>),
}

impl DeepView for Error {
    type V = ErrorView;

    open spec fn deep_view(&self) -> ErrorView {
        match self {
            Error::Manifest(m) => ErrorView::Manifest(m@),
            Error::MigrationFile { path, source } => ErrorView::MigrationFile {
                path: path@,
                source: source@,
            },
            Error::MigrationInvariant(m) => ErrorView::MigrationInvariant(m@),
            Error::ChecksumMismatch { version, file, stored, file_checksum } => {
                ErrorView::ChecksumMismatch {
                    version: *version,
                    file: file@,
                    stored: stored@,
                    file_checksum: file_checksum@,
                }
            },
            Error::SchemaTooNew { db, supported } => ErrorView::SchemaTooNew {
                db: *db,
                supported: *supported,
            },
            Error::Surreal(m) => ErrorView::Surreal(m@),
            Error::LedgerMalformed(m) => ErrorView::LedgerMalformed(m@),
            Error::Io(m) => ErrorView::Io(m@),
            Error::Other(m) => ErrorView::Other(m@),
        }
    }
}

/// The message of an error.
pub open spec fn error_text(e: ErrorView) -> Seq<char> {
    match e {
        ErrorView::Manifest(m) => "manifest error: "@ + m,
        ErrorView::MigrationFile { path, source } => "migration file "@ + path + ": "@ + source,
        ErrorView::MigrationInvariant(m) => "migration invariant violated: "@ + m,
        ErrorView::ChecksumMismatch { version, file, stored, file_checksum } => {
            "checksum mismatch on already-applied migration "@ + decimal_of(version as nat) + " ("@
                + file + "): stored="@ + stored + ", file="@ + file_checksum
        },
        ErrorView::SchemaTooNew { db, supported } => "database schema version "@ + decimal_of(
            db as nat,
        ) + " is newer than supported version "@ + decimal_of(supported as nat),
        ErrorView::Surreal(m) => "surreal error: "@ + m,
        ErrorView::LedgerMalformed(m) => "schema ledger is malformed: "@ + m,
        ErrorView::Io(m) => "storage i/o: "@ + m,
        ErrorView::Other(m) => "storage error: "@ + m,
    }
}

impl Error {
    /// The message of the error.
    pub fn message(&self) -> (r: String)
        ensures
            r@ == error_text(self.deep_view()),
    {
        match self {
            Error::Manifest(m) => "manifest error: ".to_owned().concat(m.as_str()),
            Error::MigrationFile { path, source } => {
                "migration file ".to_owned().concat(path.as_str()).concat(": ").concat(
                    source.as_str(),
                )
            },
            Error::MigrationInvariant(m) => {
                "migration invariant violated: ".to_owned().concat(m.as_str())
            },
            Error::ChecksumMismatch { version, file, stored, file_checksum } => {
                "checksum mismatch on already-applied migration ".to_owned().concat(
                    decimal(*version as u128).as_str(),
                ).concat(" (").concat(file.as_str()).concat("): stored=").concat(
                    stored.as_str(),
                ).concat(", file=").concat(file_checksum.as_str())
            },
            Error::SchemaTooNew { db, supported } => {
                "database schema version ".to_owned().concat(decimal(*db as u128).as_str()).concat(
                    " is newer than supported version ",
                ).concat(decimal(*supported as u128).as_str())
            },
            Error::Surreal(m) => "surreal error: ".to_owned().concat(m.as_str()),
            Error::LedgerMalformed(m) => "schema ledger is malformed: ".to_owned().concat(
                m.as_str(),
            ),
            Error::Io(m) => "storage i/o: ".to_owned().concat(m.as_str()),
            Error::Other(m) => "storage error: ".to_owned().concat(m.as_str()),
        }
    }
}

/// A migration failure with the version and the statement that caused it.
#[derive(Debug)]
pub struct MigrationError {
    pub version: u32,
    pub file: String,
    pub statement_index: usize,
    pub source: Error,
}

impl MigrationError {
    /// A failure of statement `statement_index` of migration `version`.
    pub fn new(version: u32, file: &str, statement_index: usize, source: Error) -> (r: Self)
        ensures
            r.version == version,
            r.file@ == file@,
            r.statement_index == statement_index,
            r.source == source,
    {
        MigrationError { version, file: file.to_owned(), statement_index, source }
    }

    /// The message of the failure.
    pub open spec fn text(self) -> Seq<char> {
        "migration "@ + decimal_of(self.version as nat) + " ("@ + self.file@
            + ") failed at statement "@ + decimal_of(self.statement_index as nat) + ": "@
            + error_text(self.source.deep_view())
    }

    /// The message of the failure.
    pub fn message(&self) -> (r: String)
        ensures
            r@ == self.text(),
    {
        "migration ".to_owned().concat(decimal(self.version as u128).as_str()).concat(" (").concat(
            self.file.as_str(),
        ).concat(") failed at statement ").concat(
            decimal(self.statement_index as u128).as_str(),
        ).concat(": ").concat(self.source.message().as_str())
    }

    /// The failure as a flat [`Error`] that keeps the version in its message.
    pub fn into_error(self) -> (r: Error)
        ensures
            r.deep_view() == ErrorView::Other(self.text()),
    {
        Error::Other(self.message())
    }
}

/// The direction of a migration in the ledger.
#[derive(Debug, Clone, Copy, PartialEq, Eq, Structural)]
pub enum MigrationDirection {
    Up,
    Down,
}

impl MigrationDirection {
    /// The direction's name in the ledger.
    pub open spec fn name(self) -> Seq<char> {
        match self {
            MigrationDirection::Up => "up"@,
            MigrationDirection::Down => "down"@,
        }
    }

    /// The direction's name in the ledger.
    pub fn as_str(self) -> (r: &'static str)
        ensures
            r@ == self.name(),
    {
        match self {
            MigrationDirection::Up => "up",
            MigrationDirection::Down => "down",
        }
    }

    /// The direction of that name in the ledger.
    pub fn from_name(s: &str) -> (r: Result<Self, Error>)
        ensures
            match r {
                Ok(d) => s@ == d.name(),
                Err(e) => {
                    &&& s@ != MigrationDirection::Up.name()
                    &&& s@ != MigrationDirection::Down.name()
                    &&& e.deep_view() == ErrorView::LedgerMalformed(
                        "unknown migration direction: "@ + s@,
                    )
                },
            },
    {
        if same_text(s, "up") {
            Ok(MigrationDirection::Up)
        } else if same_text(s, "down") {
            Ok(MigrationDirection::Down)
        } else {
            Err(Error::LedgerMalformed("unknown migration direction: ".to_owned().concat(s)))
        }
    }

    /// The two names differ, so a name stands for one direction only: reading
    /// back what `as_str` wrote gives the direction that was written.
    pub proof fn names_differ(a: MigrationDirection, b: MigrationDirection)
        ensures
            a.name() == b.name() ==> a == b,
    {
        reveal_strlit("up");
        reveal_strlit("down");
        assert("up"@.len() != "down"@.len());
    }
}

impl std::str::FromStr for MigrationDirection {
    type Err = Error;

    /// The direction of that name in the ledger.
    fn from_str(s: &str) -> (r: Result<Self, Error>)
        ensures
            match r {
                Ok(d) => s@ == d.name(),
                Err(e) => {
                    &&& s@ != MigrationDirection::Up.name()
                    &&& s@ != MigrationDirection::Down.name()
                    &&& e.deep_view() == ErrorView::LedgerMalformed(
                        "unknown migration direction: "@ + s@,
                    )
                },
            },
    {
        MigrationDirection::from_name(s)
    }
}

/// A migration that this run applied.
#[derive(Debug, Clone, PartialEq, Eq)]
pub struct AppliedMigration {
    pub version: u32,
    pub file: String,
    pub checksum: String,
    pub direction: MigrationDirection,
}

/// What an [`AppliedMigration`] holds.
pub struct AppliedView {
    pub version: u32,
    pub file: Seq<char>,
    pub checksum: Seq<char>,
    pub direction: MigrationDirection,
}

impl DeepView for AppliedMigration {
    type V = AppliedView;

    open spec fn deep_view(&self) -> AppliedView {
        AppliedView {
            version: self.version,
            file: self.file@,
            checksum: self.checksum@,
            direction: self.direction,
        }
    }
}

/// A warning of the migration runner; it never stops a run.
#[derive(Debug, Clone, PartialEq, Eq)]
pub struct MigrationWarning {
    pub version: u32,
    pub file: String,
    pub message: String,
}

/// What a [`MigrationWarning`] holds.
pub struct WarningView {
    pub version: u32,
    pub file: Seq<char>,
    pub message: Seq<char>,
}

impl DeepView for MigrationWarning {
    type V = WarningView;

    open spec fn deep_view(&self) -> WarningView {
        WarningView { version: self.version, file: self.file@, message: self.message@ }
    }
}

impl MigrationWarning {
    /// The line that a log shows for the warning.
    pub fn line(&self) -> (r: String)
        ensures
            r@ == "migration "@ + decimal_of(self.version as nat) + " ("@ + self.file@ + "): "@
                + self.message@,
    {
        "migration ".to_owned().concat(decimal(self.version as u128).as_str()).concat(" (").concat(
            self.file.as_str(),
        ).concat("): ").concat(self.message.as_str())
    }
}

/// What a migration run did.
#[derive(Debug, Clone, PartialEq, Eq)]
pub struct MigrationResult {
    /// Migrations that this run applied.
    pub applied: Vec<AppliedMigration>,
    /// Migrations that were applied already.
    pub skipped: Vec<u32>,
    /// The schema version after the run.
    pub current_version: u32,
    /// Warnings to surface, destructive migrations among them.
    pub warnings: Vec<MigrationWarning>,
}

/// What a [`MigrationResult`] holds.
pub struct ResultView {
    pub applied: Seq<AppliedView>,
    pub skipped: Seq<u32>,
    pub current_version: u32,
    pub warnings: Seq<WarningView>,
}

impl DeepView for MigrationResult {
    type V = ResultView;

    open spec fn deep_view(&self) -> ResultView {
        ResultView {
            applied: self.applied.deep_view(),
            skipped: self.skipped@,
            current_version: self.current_version,
            warnings: self.warnings.deep_view(),
        }
    }
}

impl Default for MigrationResult {
    /// A run that did nothing on a database without a schema.
    fn default() -> (r: Self)
        ensures
            r.deep_view().applied.len() == 0,
            r.deep_view().skipped.len() == 0,
            r.current_version == 0,
            r.deep_view().warnings.len() == 0,
    {
        MigrationResult {
            applied: Vec::new(),
            skipped: Vec::new(),
            current_version: 0,
            warnings: Vec::new(),
        }
    }
}

/// What each error says: what went wrong, and with what.
pub proof fn an_error_says_what_went_wrong(e: ErrorView)
    ensures
        e matches ErrorView::Manifest(m) ==> error_text(e) == "manifest error: "@ + m,
        e matches ErrorView::MigrationFile { path, source } ==> error_text(e) == "migration file "@
            + path + ": "@ + source,
        e matches ErrorView::MigrationInvariant(m) ==> error_text(e)
            == "migration invariant violated: "@ + m,
        e matches ErrorView::ChecksumMismatch { version, file, stored, file_checksum }
            ==> error_text(e) == "checksum mismatch on already-applied migration "@ + decimal_of(
            version as nat,
        ) + " ("@ + file + "): stored="@ + stored + ", file="@ + file_checksum,
        e matches ErrorView::SchemaTooNew { db, supported } ==> error_text(e)
            == "database schema version "@ + decimal_of(db as nat)
            + " is newer than supported version "@ + decimal_of(supported as nat),
        e matches ErrorView::Surreal(m) ==> error_text(e) == "surreal error: "@ + m,
        e matches ErrorView::LedgerMalformed(m) ==> error_text(e) == "schema ledger is malformed: "@
            + m,
        e matches ErrorView::Io(m) ==> error_text(e) == "storage i/o: "@ + m,
        e matches ErrorView::Other(m) ==> error_text(e) == "storage error: "@ + m,
{
}

} // verus!
