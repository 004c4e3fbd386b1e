//! Error type of the library and the text each error displays.
use vstd::prelude::*;

verus! {

/// `std::io::Error` is carried through `ApsError::Io` unchanged.
#[verifier::external_type_specification]
#[verifier::external_body]
pub struct ExIoError(std::io::Error);

/// Every error the library reports. Paths are held as strings.
#[derive(Debug)]
pub enum ApsError {
    ManifestNotFound,
    ManifestAlreadyExists { path: String },
    ManifestParseError { message: String },
    InvalidAssetKind { kind: String },
    InvalidSourceType { source_type: String },
    DuplicateId { id: String },
    SourcePathNotFound { path: String },
    Conflict { path: String },
    Cancelled,
    RequiresYesFlag,
    Io { message: String, source: std::io::Error },
    LockfileReadError { message: String },
    LockfileNotFound,
    MissingSkillMd { skill_name: String },
    GitError { message: String },
    GitRefNotFound { refs: Vec<String> },
    EntryNotFound { id: String },
    CatalogNotFound,
    CatalogReadError { message: String },
    CompositeRequiresSources { id: String },
    EntryRequiresSource { id: String },
    ComposeError { message: String },
    InvalidHooksDirectory { path: String },
    MissingHooksConfig { path: String },
    InvalidHooksConfig { path: String, message: String },
    MissingHooksSection { path: String },
    HookScriptNotFound { path: String },
    InvalidGitHubUrl { url: String, reason: String },
    InvalidInput { message: String },
    NoSkillsFound { location: String },
    NoSkillsSelected,
}

/// What `format!("{:?}", refs)` prints for a list of strings.
pub uninterp spec fn debug_text_of_strings(refs: Seq<Seq<char>>) -> Seq<char>;

/// The views of a list of strings.
pub open spec fn string_views(v: Seq<String>) -> Seq<Seq<char>> {
    v.map_values(|s: String| s@)
}

/// Debug rendering of a list of strings (`format!("{:?}", refs)`): the text is
/// named by `debug_text_of_strings`, which depends on the strings alone.
#[verifier::external_body]
pub(crate) fn debug_strings(refs: &Vec<String>) -> (r: String)
    ensures
        r@ == debug_text_of_strings(string_views(refs@)),
{
    format!("{:?}", refs)
}

/// What `format!("{:?}", Path::new(s))` prints for a path held as text.
pub uninterp spec fn debug_text_of(s: Seq<char>) -> Seq<char>;

/// Debug rendering of a path: `format!("{:?}", std::path::Path::new(s))`,
/// the path quoted and escaped as std's `Debug` for `Path` does. The text is
/// named by `debug_text_of`, which depends on the path's text alone.
#[verifier::external_body]
pub(crate) fn debug_string(s: &str) -> (r: String)
    ensures
        r@ == debug_text_of(s@),
{
    format!("{:?}", std::path::Path::new(s))
}

/// A fresh `String` holding the given text.
pub fn lit(s: &str) -> (r: String)
    ensures
        r@ == s@,
{
    String::from_str(s)
}

/// `a` followed by `b`.
pub fn cat2(a: &str, b: &str) -> (r: String)
    ensures
        r@ == a@ + b@,
{
    let mut r = String::from_str(a);
    r.append(b);
    r
}

/// `a`, `b` and `c` in sequence.
pub fn cat3(a: &str, b: &str, c: &str) -> (r: String)
    ensures
        r@ == a@ + b@ + c@,
{
    let mut r = String::from_str(a);
    r.append(b);
    r.append(c);
    r
}

/// `a`, `b`, `c` and `d` in sequence.
pub fn cat4(a: &str, b: &str, c: &str, d: &str) -> (r: String)
    ensures
        r@ == a@ + b@ + c@ + d@,
{
    let mut r = String::from_str(a);
    r.append(b);
    r.append(c);
    r.append(d);
    r
}

/// The text an error displays.
pub open spec fn error_text(e: ApsError) -> Seq<char> {
    match e {
        ApsError::ManifestNotFound => "Manifest not found"@,
        ApsError::ManifestAlreadyExists { path } => "Manifest already exists at "@ + path@,
        ApsError::ManifestParseError { message } => "Failed to parse manifest: "@ + message@,
        ApsError::InvalidAssetKind { kind } => "Invalid asset kind: "@ + kind@,
        ApsError::InvalidSourceType { source_type } => "Invalid source type: "@ + source_type@,
        ApsError::DuplicateId { id } => "Duplicate entry ID: "@ + id@,
        ApsError::SourcePathNotFound { path } => "Source path not found: "@ + path@,
        ApsError::Conflict { path } => "Conflict detected at "@ + path@,
        ApsError::Cancelled => "Operation cancelled by user"@,
        ApsError::RequiresYesFlag => "Non-interactive mode requires --yes flag for overwrites"@,
        ApsError::Io { message, .. } => "IO error: "@ + message@,
        ApsError::LockfileReadError { message } => "Failed to read lockfile: "@ + message@,
        ApsError::LockfileNotFound => "No lockfile found"@,
        ApsError::MissingSkillMd { skill_name } => "Skill '"@ + skill_name@
            + "' is missing SKILL.md"@,
        ApsError::GitError { message } => "Git operation failed: "@ + message@,
        ApsError::GitRefNotFound { refs } => "Git ref not found: tried "@
            + debug_text_of_strings(string_views(refs@)),
        ApsError::EntryNotFound { id } => "Entry not found: "@ + id@,
        ApsError::CatalogNotFound => "Catalog not found"@,
        ApsError::CatalogReadError { message } => "Failed to read catalog: "@ + message@,
        ApsError::CompositeRequiresSources { id } => "Composite entry '"@ + id@
            + "' requires 'sources' array"@,
        ApsError::EntryRequiresSource { id } => "Entry '"@ + id@ + "' requires a 'source' field"@,
        ApsError::ComposeError { message } => "Failed to compose markdown files: "@ + message@,
        ApsError::InvalidHooksDirectory { path } => "Hooks directory should be named 'hooks': "@
            + path@,
        ApsError::MissingHooksConfig { path } => "Hooks config not found at "@ + path@,
        ApsError::InvalidHooksConfig { path, message } => "Invalid hooks config at "@ + path@
            + ": "@ + message@,
        ApsError::MissingHooksSection { path } => "Hooks config at "@ + path@
            + " is missing a 'hooks' section"@,
        ApsError::HookScriptNotFound { path } => "Hook script not found: "@ + path@,
        ApsError::InvalidGitHubUrl { url, .. } => "Invalid GitHub URL: "@ + url@,
        ApsError::InvalidInput { message } => "Invalid input: "@ + message@,
        ApsError::NoSkillsFound { location } => "No skills found in "@ + location@,
        ApsError::NoSkillsSelected => "No skills selected"@,
    }
}

impl ApsError {
    /// An I/O error with the context it happened in.
    pub fn io(err: std::io::Error, context: String) -> (r: ApsError)
        ensures
            r matches ApsError::Io { message, source } && message == context && source == err,
    {
        ApsError::Io { message: context, source: err }
    }

    /// The text this error displays.
    pub fn message(&self) -> (r: String)
        ensures
            r@ == error_text(*self),
    {
        match self {
            ApsError::ManifestNotFound => lit("Manifest not found"),
            ApsError::ManifestAlreadyExists { path } => cat2(
                "Manifest already exists at ",
                path.as_str(),
            ),
            ApsError::ManifestParseError { message } => cat2(
                "Failed to parse manifest: ",
                message.as_str(),
            ),
            ApsError::InvalidAssetKind { kind } => cat2("Invalid asset kind: ", kind.as_str()),
            ApsError::InvalidSourceType { source_type } => cat2(
                "Invalid source type: ",
                source_type.as_str(),
            ),
            ApsError::DuplicateId { id } => cat2("Duplicate entry ID: ", id.as_str()),
            ApsError::SourcePathNotFound { path } => cat2(
                "Source path not found: ",
                path.as_str(),
            ),
            ApsError::Conflict { path } => cat2("Conflict detected at ", path.as_str()),
            ApsError::Cancelled => lit("Operation cancelled by user"),
            ApsError::RequiresYesFlag => lit(
                "Non-interactive mode requires --yes flag for overwrites",
            ),
            ApsError::Io { message, .. } => cat2("IO error: ", message.as_str()),
            ApsError::LockfileReadError { message } => cat2(
                "Failed to read lockfile: ",
                message.as_str(),
            ),
            ApsError::LockfileNotFound => lit("No lockfile found"),
            ApsError::MissingSkillMd { skill_name } => cat3(
                "Skill '",
                skill_name.as_str(),
                "' is missing SKILL.md",
            ),
            ApsError::GitError { message } => cat2("Git operation failed: ", message.as_str()),
            ApsError::GitRefNotFound { refs } => {
                let d = debug_strings(refs);
                cat2("Git ref not found: tried ", d.as_str())
            },
            ApsError::EntryNotFound { id } => cat2("Entry not found: ", id.as_str()),
            ApsError::CatalogNotFound => lit("Catalog not found"),
            ApsError::CatalogReadError { message } => cat2(
                "Failed to read catalog: ",
                message.as_str(),
            ),
            ApsError::CompositeRequiresSources { id } => cat3(
                "Composite entry '",
                id.as_str(),
                "' requires 'sources' array",
            ),
            ApsError::EntryRequiresSource { id } => cat3(
                "Entry '",
                id.as_str(),
                "' requires a 'source' field",
            ),
            ApsError::ComposeError { message } => cat2(
                "Failed to compose markdown files: ",
                message.as_str(),
            ),
            ApsError::InvalidHooksDirectory { path } => cat2(
                "Hooks directory should be named 'hooks': ",
                path.as_str(),
            ),
            ApsError::MissingHooksConfig { path } => cat2(
                "Hooks config not found at ",
                path.as_str(),
            ),
            ApsError::InvalidHooksConfig { path, message } => cat4(
                "Invalid hooks config at ",
                path.as_str(),
                ": ",
                message.as_str(),
            ),
            ApsError::MissingHooksSection { path } => cat3(
                "Hooks config at ",
                path.as_str(),
                " is missing a 'hooks' section",
            ),
            ApsError::HookScriptNotFound { path } => cat2(
                "Hook script not found: ",
                path.as_str(),
            ),
            ApsError::InvalidGitHubUrl { url, .. } => cat2("Invalid GitHub URL: ", url.as_str()),
            ApsError::InvalidInput { message } => cat2("Invalid input: ", message.as_str()),
            ApsError::NoSkillsFound { location } => cat2(
                "No skills found in ",
                location.as_str(),
            ),
            ApsError::NoSkillsSelected => lit("No skills selected"),
        }
    }
}

} // verus!
