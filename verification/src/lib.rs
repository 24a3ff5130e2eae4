//! Ordered one-shot migrations of a project directory: version codes, the
//! migrations found in a directory, the record of those applied, and the
//! baseline below which their files are no longer needed.

use vstd::prelude::*;

pub mod baseline;
pub mod commands;
pub mod error;
pub mod loader;
pub mod sequences;
pub mod state;
pub mod templates;
pub mod text;
pub mod time;
pub mod version;

use crate::time::{Instant, Timestamp};

verus! {

/// A migration found in the migrations directory.
#[derive(Debug)]
pub struct Migration {
    /// The file's name without its extension, such as `1f72f-init`.
    pub id: String,
    /// The version code that the file's name begins with, such as `1f72f`.
    pub version: String,
    /// The path of the file.
    pub file_path: String,
}

/// What a `Migration` holds.
pub struct MigrationView {
    pub id: Seq<char>,
    pub version: Seq<char>,
    pub file_path: Seq<char>,
}

impl View for Migration {
    type V = MigrationView;

    open spec fn view(&self) -> MigrationView {
        MigrationView { id: self.id@, version: self.version@, file_path: self.file_path@ }
    }
}

impl DeepView for Migration {
    type V = MigrationView;

    open spec fn deep_view(&self) -> MigrationView {
        self@
    }
}

impl Clone for Migration {
    fn clone(&self) -> (r: Migration)
        ensures
            r@ == self@,
    {
        Migration {
            id: self.id.clone(),
            version: self.version.clone(),
            file_path: self.file_path.clone(),
        }
    }
}

/// The record that a migration was applied.
#[derive(Debug)]
pub struct AppliedMigration {
    /// The id of the migration.
    pub id: String,
    /// When it was applied.
    pub applied_at: Timestamp,
}

/// What an `AppliedMigration` holds.
pub struct AppliedMigrationView {
    pub id: Seq<char>,
    pub applied_at: Instant,
}

impl View for AppliedMigration {
    type V = AppliedMigrationView;

    open spec fn view(&self) -> AppliedMigrationView {
        AppliedMigrationView { id: self.id@, applied_at: self.applied_at@ }
    }
}

impl DeepView for AppliedMigration {
    type V = AppliedMigrationView;

    open spec fn deep_view(&self) -> AppliedMigrationView {
        self@
    }
}

impl Clone for AppliedMigration {
    fn clone(&self) -> (r: AppliedMigration)
        ensures
            r@ == self@,
    {
        AppliedMigration { id: self.id.clone(), applied_at: self.applied_at }
    }
}

/// What a migration is told when it runs. It is told in the environment
/// variables of `environment`.
#[derive(Debug)]
pub struct ExecutionContext {
    /// The absolute path of the root of the project.
    pub project_root: String,
    /// The path of the migrations directory.
    pub migrations_dir: String,
    /// The id of the migration that runs.
    pub migration_id: String,
    /// Whether nothing is to be changed.
    pub dry_run: bool,
}

/// What an `ExecutionContext` holds.
pub struct ExecutionContextView {
    pub project_root: Seq<char>,
    pub migrations_dir: Seq<char>,
    pub migration_id: Seq<char>,
    pub dry_run: bool,
}

impl View for ExecutionContext {
    type V = ExecutionContextView;

    open spec fn view(&self) -> ExecutionContextView {
        ExecutionContextView {
            project_root: self.project_root@,
            migrations_dir: self.migrations_dir@,
            migration_id: self.migration_id@,
            dry_run: self.dry_run,
        }
    }
}

impl Clone for ExecutionContext {
    fn clone(&self) -> (r: ExecutionContext)
        ensures
            r@ == self@,
    {
        ExecutionContext {
            project_root: self.project_root.clone(),
            migrations_dir: self.migrations_dir.clone(),
            migration_id: self.migration_id.clone(),
            dry_run: self.dry_run,
        }
    }
}

/// The environment variables that tell a migration its context, each with its value.
pub open spec fn environment_of(context: ExecutionContextView) -> Seq<(Seq<char>, Seq<char>)> {
    seq![
        ("MIGRATE_PROJECT_ROOT"@, context.project_root),
        ("MIGRATE_MIGRATIONS_DIR"@, context.migrations_dir),
        ("MIGRATE_ID"@, context.migration_id),
        ("MIGRATE_DRY_RUN"@, if context.dry_run {
            "true"@
        } else {
            "false"@
        }),
    ]
}

impl ExecutionContext {
    /// The environment variables that tell the migration its context, each with
    /// its value.
    pub fn environment(&self) -> (r: Vec<(String, String)>)
        ensures
            r.deep_view() == environment_of(self@),
    {
        let mut r: Vec<(String, String)> = Vec::new();
        r.push(("MIGRATE_PROJECT_ROOT".to_owned(), self.project_root.clone()));
        r.push(("MIGRATE_MIGRATIONS_DIR".to_owned(), self.migrations_dir.clone()));
        r.push(("MIGRATE_ID".to_owned(), self.migration_id.clone()));
        let flag = if self.dry_run {
            "true"
        } else {
            "false"
        };
        r.push(("MIGRATE_DRY_RUN".to_owned(), flag.to_owned()));
        assert(r.deep_view() =~= environment_of(self@));
        r
    }
}

/// How a migration ended.
#[derive(Debug)]
pub struct ExecutionResult {
    /// Whether it succeeded.
    pub success: bool,
    /// The exit code of its process.
    pub exit_code: i32,
    /// What went wrong, in words, where that is known.
    pub error: Option<String>,
}

/// What an `ExecutionResult` holds.
pub struct ExecutionResultView {
    pub success: bool,
    pub exit_code: i32,
    pub error: Option<Seq<char>>,
}

impl View for ExecutionResult {
    type V = ExecutionResultView;

    open spec fn view(&self) -> ExecutionResultView {
        ExecutionResultView {
            success: self.success,
            exit_code: self.exit_code,
            error: self.error.deep_view(),
        }
    }
}

} // verus!
