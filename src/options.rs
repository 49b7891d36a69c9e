use vstd::prelude::*;
use crate::text::{chars_of, string_of};

verus! {

/// The validated configuration of a run.
#[derive(Debug)]
pub struct AppOptions {
    pub src: String,
    pub dest: String,
    pub ignore_file: String,
    pub log_file: Option<String>,
    pub force_copy: bool,
}

/// What the file system says of a path given on the command line.
#[derive(Debug, Clone, Copy, PartialEq, Eq, Structural)]
pub struct PathFacts {
    pub exists: bool,
    pub is_dir: bool,
    pub is_file: bool,
    /// Whether the path's parent directory exists.
    pub parent_exists: bool,
}

/// An invalid or missing argument, found before any traversal.
#[derive(Debug, Clone, Copy, PartialEq, Eq, Structural)]
pub enum ConfigError {
    SourceMissing,
    SourceNotDirectory,
    DestinationMissing,
    DestinationNotDirectory,
    IgnoreFileMissing,
}

/// What to do with the destination root before the run.
#[derive(Debug, Clone, Copy, PartialEq, Eq, Structural)]
pub enum DestAction {
    UseExisting,
    Create,
}

/// The source root must exist and be a directory.
pub fn check_source(f: PathFacts) -> (r: Result<(), ConfigError>)
    ensures
        r == (if !f.exists {
            Err(ConfigError::SourceMissing)
        } else if !f.is_dir {
            Err(ConfigError::SourceNotDirectory)
        } else {
            Ok(())
        }),
{
    if !f.exists {
        Err(ConfigError::SourceMissing)
    } else if !f.is_dir {
        Err(ConfigError::SourceNotDirectory)
    } else {
        Ok(())
    }
}

/// The destination root must be a directory, or be missing under an existing parent, in which
/// case it is created.
pub fn check_dest(f: PathFacts) -> (r: Result<DestAction, ConfigError>)
    ensures
        r == (if !f.exists {
            if f.parent_exists {
                Ok(DestAction::Create)
            } else {
                Err(ConfigError::DestinationMissing)
            }
        } else if !f.is_dir {
            Err(ConfigError::DestinationNotDirectory)
        } else {
            Ok(DestAction::UseExisting)
        }),
{
    if !f.exists {
        if f.parent_exists {
            Ok(DestAction::Create)
        } else {
            Err(ConfigError::DestinationMissing)
        }
    } else if !f.is_dir {
        Err(ConfigError::DestinationNotDirectory)
    } else {
        Ok(DestAction::UseExisting)
    }
}

/// The ignore-file must exist and be a regular file.
pub fn check_ignore_file(f: PathFacts) -> (r: Result<(), ConfigError>)
    ensures
        r == (if f.exists && f.is_file {
            Ok(())
        } else {
            Err(ConfigError::IgnoreFileMissing)
        }),
{
    if f.exists && f.is_file {
        Ok(())
    } else {
        Err(ConfigError::IgnoreFileMissing)
    }
}

pub open spec fn rules_file_name() -> Seq<char> {
    seq!['.', 's', 'l', 'i', 'm', 'c', 'o', 'p', 'y', '_', 'r', 'u', 'l', 'e', 's']
}

/// The path of the ignore-file used when none is given: the rules file directly inside `src`.
pub open spec fn default_ignore_path(src: Seq<char>) -> Seq<char> {
    if src.len() > 0 && src.last() == '/' {
        src + rules_file_name()
    } else {
        src + seq!['/'] + rules_file_name()
    }
}

/// The default ignore-file of the source root `src`.
pub fn default_ignore_file(src: &str) -> (r: String)
    ensures
        r@ == default_ignore_path(src@),
{
    let mut v = chars_of(src);
    if !(v.len() > 0 && v[v.len() - 1] == '/') {
        v.push('/');
    }
    let name: [char; 15] = ['.', 's', 'l', 'i', 'm', 'c', 'o', 'p', 'y', '_', 'r', 'u', 'l', 'e', 's'];
    let ghost head = v@;
    let mut i: usize = 0;
    while i < 15
        invariant
            i <= 15,
            name@ == rules_file_name(),
            v@ == head + rules_file_name().subrange(0, i as int),
        decreases 15 - i,
    {
        v.push(name[i]);
        i = i + 1;
        assert(v@ =~= head + rules_file_name().subrange(0, i as int));
    }
    assert(rules_file_name().subrange(0, 15) =~= rules_file_name());
    proof {
        if !(src@.len() > 0 && src@.last() == '/') {
            assert(head =~= src@ + seq!['/']);
        }
    }
    string_of(&v)
}

} // verus!
