//! Configuration and path resolution.
//!
//! The engine takes its settings as an explicit value instead of reaching
//! into ambient process state: the configured base path (which may begin
//! with the `~` home-directory shorthand and may be relative), the storage
//! subdirectory, the names of the working, archive and template
//! directories, and the template file extension.  Resolution turns the
//! configured base into an absolute root: the shorthand is replaced by the
//! platform's home directory, and a still-relative path is joined onto the
//! current working directory.

use vstd::prelude::*;

use crate::error::StorageError;
use crate::paths::{parse_path, path_from_string, string_eq, FsPath, PathModel};
use crate::storable::Storable;
use crate::storage::{DirsPresent, Storage};

verus! {

/// The configuration values the engine consumes; a missing required value
/// is a fatal setup error naming its key.
#[derive(Debug, Clone)]
pub struct Config {
    /// The configured base path (key `path`).
    pub path: Option<String>,
    /// The storage subdirectory under the base (key `dirs/storage`).
    pub storage_dir: Option<String>,
    /// The working directory's name (key `dirs/working`).
    pub working_dir: Option<String>,
    /// The archive directory's name (key `dirs/archive`).
    pub archive_dir: Option<String>,
    /// The template directory's name (key `dirs/templates`).
    pub templates_dir: Option<String>,
    /// The template file extension (key `extensions/project_template`).
    pub template_extension: Option<String>,
}

/// Whether a parsed path begins with the home-directory shorthand.
pub open spec fn has_home_token(m: PathModel) -> bool {
    m.parts.len() > 0 && m.parts[0] == seq!['~']
}

/// An absolute path stays; a relative one is joined onto the current
/// working directory.
pub open spec fn absolutize(m: PathModel, cwd: PathModel) -> PathModel {
    if m.absolute {
        m
    } else {
        cwd.join_rel(m)
    }
}

/// What resolving the configured storage path yields, given the home
/// directory the platform reports (if any) and the current working
/// directory.  An error names the configuration key that was missing —
/// `home` standing for a required but undeterminable home directory.
pub open spec fn resolve_spec(
    path: Option<Seq<char>>,
    storage: Option<Seq<char>>,
    home: Option<PathModel>,
    cwd: PathModel,
) -> Result<PathModel, Seq<char>> {
    match path {
        None => Err("path"@),
        Some(p) => match storage {
            None => Err("dirs/storage"@),
            Some(sd) => {
                let joined = path_from_string(p).join_rel(path_from_string(sd));
                if has_home_token(joined) {
                    match home {
                        None => Err("home"@),
                        Some(h) => Ok(
                            absolutize(
                                PathModel {
                                    absolute: h.absolute,
                                    parts: h.parts + joined.parts.skip(1),
                                },
                                cwd,
                            ),
                        ),
                    }
                } else {
                    Ok(absolutize(joined, cwd))
                }
            },
        },
    }
}

/// Resolves the configured storage path against an explicitly given home
/// and current working directory.
pub fn resolve_storage_path(config: &Config, home: Option<&FsPath>, cwd: &FsPath) -> (r: Result<
    FsPath,
    StorageError,
>)
    ensures
        ({
            let spec_r = resolve_spec(
                config.path.deep_view(),
                config.storage_dir.deep_view(),
                home.deep_view(),
                cwd@,
            );
            match r {
                Ok(p) => spec_r == Ok::<PathModel, Seq<char>>(p@),
                Err(e) => e matches StorageError::FaultyConfig(k) && spec_r == Err::<
                    PathModel,
                    Seq<char>,
                >(k@),
            }
        }),
{
    let p = match &config.path {
        Some(p) => p,
        None => {
            return Err(StorageError::FaultyConfig("path".to_owned()));
        },
    };
    let sd = match &config.storage_dir {
        Some(s) => s,
        None => {
            return Err(StorageError::FaultyConfig("dirs/storage".to_owned()));
        },
    };
    let joined = parse_path(p.as_str()).join_path(&parse_path(sd.as_str()));
    proof {
        reveal_strlit("~");
        assert("~"@ =~= seq!['~']);
    }
    let has_tok = if joined.depth() > 0 {
        string_eq(&joined.components()[0], &"~".to_owned())
    } else {
        false
    };
    let base = if has_tok {
        match home {
            Some(h) => h.join_path(&joined.tail()),
            None => {
                return Err(StorageError::FaultyConfig("home".to_owned()));
            },
        }
    } else {
        joined
    };
    if base.is_absolute() {
        Ok(base)
    } else {
        Ok(cwd.join_path(&base))
    }
}

/// Relies on `dirs::home_dir`: the home directory the platform reports,
/// if any, converted to the path model at the boundary.  What comes back
/// depends on the environment, so nothing is promised of it.
#[verifier::external_body]
fn home_dir_path() -> (r: Option<FsPath>)
{
    dirs::home_dir().and_then(|p| p.to_str().map(parse_path))
}

/// Resolves the configured storage path, asking the platform for the home
/// directory.  Whatever home the platform reported, the result is the
/// resolution against it.
pub fn get_storage_path(config: &Config, cwd: &FsPath) -> (r: Result<FsPath, StorageError>)
    ensures
        exists|home: Option<PathModel>|
            {
                let spec_r = #[trigger] resolve_spec(
                    config.path.deep_view(),
                    config.storage_dir.deep_view(),
                    home,
                    cwd@,
                );
                match r {
                    Ok(p) => spec_r == Ok::<PathModel, Seq<char>>(p@),
                    Err(e) => e matches StorageError::FaultyConfig(k) && spec_r == Err::<
                        PathModel,
                        Seq<char>,
                    >(k@),
                }
            },
{
    let home = home_dir_path();
    let home_ref = home.as_ref();
    let r = resolve_storage_path(config, home_ref, cwd);
    proof {
        let h = home_ref.deep_view();
        assert(resolve_spec(config.path.deep_view(), config.storage_dir.deep_view(), h, cwd@)
            == resolve_spec(config.path.deep_view(), config.storage_dir.deep_view(), h, cwd@));
    }
    r
}

/// Sets up a storage engine under an already-resolved root: reads the
/// directory names and the template extension from the configuration,
/// builds the engine, and checks the directory structure's health.
pub fn setup<L: Storable>(config: &Config, storage_path: &FsPath, present: &DirsPresent) -> (r:
    Result<Storage<L>, StorageError>)
    ensures
        setup_outcome(
            r,
            *config,
            storage_path@,
            *present,
            None::<PathModel>,
        ),
{
    let working = match &config.working_dir {
        Some(w) => w,
        None => {
            return Err(StorageError::FaultyConfig("dirs/working".to_owned()));
        },
    };
    let archive = match &config.archive_dir {
        Some(a) => a,
        None => {
            return Err(StorageError::FaultyConfig("dirs/archive".to_owned()));
        },
    };
    let templates = match &config.templates_dir {
        Some(t) => t,
        None => {
            return Err(StorageError::FaultyConfig("dirs/templates".to_owned()));
        },
    };
    let extension = match &config.template_extension {
        Some(x) => x,
        None => {
            return Err(StorageError::FaultyConfig("extensions/project_template".to_owned()));
        },
    };
    let storage = Storage::try_new(
        storage_path,
        working.as_str(),
        archive.as_str(),
        templates.as_str(),
        extension.as_str(),
    )?;
    storage.health_check(present)?;
    Ok(storage)
}

/// Sets up a storage engine with the version-control side-channel
/// attached (unless the caller disabled it, which falls back to a plain
/// setup).
pub fn setup_with_git<L: Storable>(
    config: &Config,
    storage_path: &FsPath,
    present: &DirsPresent,
    use_git: bool,
) -> (r: Result<Storage<L>, StorageError>)
    ensures
        setup_outcome(
            r,
            *config,
            storage_path@,
            *present,
            if use_git {
                Some(storage_path@)
            } else {
                None
            },
        ),
{
    let working = match &config.working_dir {
        Some(w) => w,
        None => {
            return Err(StorageError::FaultyConfig("dirs/working".to_owned()));
        },
    };
    let archive = match &config.archive_dir {
        Some(a) => a,
        None => {
            return Err(StorageError::FaultyConfig("dirs/archive".to_owned()));
        },
    };
    let templates = match &config.templates_dir {
        Some(t) => t,
        None => {
            return Err(StorageError::FaultyConfig("dirs/templates".to_owned()));
        },
    };
    let extension = match &config.template_extension {
        Some(x) => x,
        None => {
            return Err(StorageError::FaultyConfig("extensions/project_template".to_owned()));
        },
    };
    let storage = if use_git {
        Storage::try_new_with_git(
            storage_path,
            working.as_str(),
            archive.as_str(),
            templates.as_str(),
            extension.as_str(),
        )?
    } else {
        Storage::try_new(
            storage_path,
            working.as_str(),
            archive.as_str(),
            templates.as_str(),
            extension.as_str(),
        )?
    };
    storage.health_check(present)?;
    Ok(storage)
}

/// How a finished setup relates to its inputs: each missing key fails
/// with `FaultyConfig` naming it, in reading order; a relative root is
/// `StoragePathNotAbsolute`; missing directories are
/// `InvalidDirStructure`; otherwise the engine is built under the root
/// with the configured names, and with the repository attached exactly
/// when asked for.
pub open spec fn setup_outcome<L: Storable>(
    r: Result<Storage<L>, StorageError>,
    config: Config,
    root: PathModel,
    present: DirsPresent,
    repo: Option<PathModel>,
) -> bool {
    match config.working_dir.deep_view() {
        None => r matches Err(e) && (e matches StorageError::FaultyConfig(k) && k@
            == "dirs/working"@),
        Some(w) => match config.archive_dir.deep_view() {
            None => r matches Err(e) && (e matches StorageError::FaultyConfig(k) && k@
                == "dirs/archive"@),
            Some(a) => match config.templates_dir.deep_view() {
                None => r matches Err(e) && (e matches StorageError::FaultyConfig(k) && k@
                    == "dirs/templates"@),
                Some(t) => match config.template_extension.deep_view() {
                    None => r matches Err(e) && (e matches StorageError::FaultyConfig(k) && k@
                        == "extensions/project_template"@),
                    Some(x) => if !root.absolute {
                        r == Err::<Storage<L>, StorageError>(StorageError::StoragePathNotAbsolute)
                    } else if !present.all() {
                        r == Err::<Storage<L>, StorageError>(StorageError::InvalidDirStructure)
                    } else {
                        r matches Ok(s) && {
                            &&& s.wf()
                            &&& s.root_spec() == root
                            &&& s.working_spec() == root.join(w)
                            &&& s.archive_spec() == root.join(a)
                            &&& s.templates_spec() == root.join(t)
                            &&& s.template_ext_spec() == x
                            &&& s.repository_spec() == repo
                        }
                    },
                },
            },
        },
    }
}

} // verus!
