//! The command line: commands and their arguments, as plain values.
use crate::manifest::AssetKind;
use vstd::prelude::*;

verus! {

/// The parsed command line.
#[derive(Debug)]
pub struct Cli {
    pub command: Commands,
    /// Verbose logging
    pub verbose: bool,
}

/// The commands.
#[derive(Debug)]
pub enum Commands {
    /// Initialize a new manifest file
    Init(InitArgs),
    /// Add a skill from a GitHub URL or local path to the manifest
    Add(AddArgs),
    /// Sync and install assets from manifest sources
    Sync(SyncArgs),
    /// Validate manifest and sources
    Validate(ValidateArgs),
    /// Display status from lockfile
    Status(StatusArgs),
    /// Catalog operations for asset discovery
    Catalog(CatalogArgs),
}

#[derive(Debug)]
pub struct InitArgs {
    /// Output format for the manifest
    pub format: ManifestFormat,
    /// Path for the manifest file
    pub manifest: Option<String>,
}

#[derive(Debug)]
pub struct AddArgs {
    /// GitHub URL or local filesystem path to a skill folder or repository
    pub url: String,
    /// Custom entry ID (defaults to the skill folder name)
    pub id: Option<String>,
    /// Asset kind
    pub kind: AddAssetKind,
    /// Path to the manifest file
    pub manifest: Option<String>,
    /// Only update the manifest, do not sync
    pub no_sync: bool,
    /// Add all discovered skills without prompting
    pub all: bool,
    /// Skip confirmation prompts
    pub yes: bool,
}

/// The kinds `add` can create.
#[derive(Debug, Clone, Copy, PartialEq, Eq, Structural)]
pub enum AddAssetKind {
    AgentSkill,
    CursorRules,
    CursorSkillsRoot,
    AgentsMd,
}

/// Manifest file formats.
#[derive(Debug, Clone, Copy, PartialEq, Eq, Structural)]
pub enum ManifestFormat {
    Yaml,
    Toml,
}

#[derive(Debug)]
pub struct SyncArgs {
    /// Path to the manifest file
    pub manifest: Option<String>,
    /// Only sync these entry IDs
    pub only: Vec<String>,
    /// Skip confirmation prompts and allow overwrites
    pub yes: bool,
    /// Ignore the manifest (not implemented)
    pub ignore_manifest: bool,
    /// Show what would be done without making changes
    pub dry_run: bool,
    /// Treat warnings as errors
    pub strict: bool,
    /// Fetch the latest versions instead of the locked ones
    pub upgrade: bool,
}

#[derive(Debug)]
pub struct ValidateArgs {
    /// Path to the manifest file
    pub manifest: Option<String>,
    /// Treat warnings as errors
    pub strict: bool,
}

#[derive(Debug)]
pub struct StatusArgs {
    /// Path to the manifest file
    pub manifest: Option<String>,
}

#[derive(Debug)]
pub struct CatalogArgs {
    pub command: CatalogCommands,
}

#[derive(Debug)]
pub enum CatalogCommands {
    /// Generate a catalog from the manifest
    Generate(CatalogGenerateArgs),
}

#[derive(Debug)]
pub struct CatalogGenerateArgs {
    /// Path to the manifest file
    pub manifest: Option<String>,
    /// Output path (default: aps.catalog.yaml next to the manifest)
    pub output: Option<String>,
}

/// The manifest kind an `add` kind creates.
pub open spec fn asset_kind_of(k: AddAssetKind) -> AssetKind {
    match k {
        AddAssetKind::AgentSkill => AssetKind::AgentSkill,
        AddAssetKind::CursorRules => AssetKind::CursorRules,
        AddAssetKind::CursorSkillsRoot => AssetKind::CursorSkillsRoot,
        AddAssetKind::AgentsMd => AssetKind::AgentsMd,
    }
}

/// The manifest kind an `add` kind creates.
pub fn resolve_asset_kind(kind: AddAssetKind) -> (r: AssetKind)
    ensures
        r == asset_kind_of(kind),
{
    match kind {
        AddAssetKind::AgentSkill => AssetKind::AgentSkill,
        AddAssetKind::CursorRules => AssetKind::CursorRules,
        AddAssetKind::CursorSkillsRoot => AssetKind::CursorSkillsRoot,
        AddAssetKind::AgentsMd => AssetKind::AgentsMd,
    }
}

} // verus!
