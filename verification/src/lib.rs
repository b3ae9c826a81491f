//! A fast, cross-platform file-sorting library.
//!
//! The library organizes the files under a source directory into a
//! date-structured tree under a target directory.  Each file is renamed
//! after one of its timestamps (modification, access or creation time)
//! rendered with a configurable `strftime`-style pattern, an extension
//! filter decides which files are in scope, and name collisions inside one
//! sorting batch are resolved with a numeric suffix scheme.
//!
//! The sorting engine itself is pure: it plans a batch of renames from a
//! description of the source tree (paths and raw timestamps) and hands the
//! plan to an executor state machine.  Reading the tree and performing the
//! renames is left to the caller, so the planning logic can be specified
//! and verified for every input.

use vstd::prelude::*;

pub mod collide;
pub mod destination;
pub mod errors;
pub mod executor;
pub mod paths;
pub mod planner;
pub mod prelude;
pub mod stamp;
pub mod structs;

use crate::errors::SortError;
use crate::paths::extension_of;
use crate::paths::file_name_of;
use crate::structs::config_of;
use crate::structs::ConfigData;
use crate::structs::File;

verus! {

/// The extension strings of a type list.
pub open spec fn type_views(v: Seq<String>) -> Seq<Seq<char>> {
    v.map_values(|s: String| s@)
}

/// Whether a file named `name` is in scope for sorting.  A non-empty
/// only-list admits exactly the extensions it holds and makes the exclude
/// list irrelevant; with an empty only-list every extension not on the
/// exclude list is admitted.  A file without a `.` has the empty extension,
/// which matches an explicitly configured empty entry.
pub open spec fn eligible(name: Seq<char>, exclude: Seq<Seq<char>>, only: Seq<Seq<char>>) -> bool {
    if only.len() > 0 {
        only.contains(extension_of(name))
    } else {
        !exclude.contains(extension_of(name))
    }
}

/// A non-empty only-list governs eligibility alone: changing the exclude
/// list changes nothing.
pub proof fn lemma_only_type_overrides(
    name: Seq<char>,
    excl1: Seq<Seq<char>>,
    excl2: Seq<Seq<char>>,
    only: Seq<Seq<char>>,
)
    requires
        only.len() > 0,
    ensures
        eligible(name, excl1, only) == eligible(name, excl2, only),
{
}

/// The sorter struct that sorts the files.  There are two ways to create an
/// instance of [`Sorter`]: passing the individual fields, and
/// [`Sorter::from_json`].
#[derive(Debug, PartialEq)]
pub struct Sorter {
    /// The directory from which to get all the files to sort.
    pub source: File,
    /// The directory to sort all the files into.
    pub target: File,
    /// The date format used to rename the files, in the standard `strftime`
    /// format.
    pub date_format: String,
    /// The date type to sort by: `"a"` (accessed), `"c"` (created) or `"m"`
    /// (modified).  Sorting by creation date is not available on all
    /// filesystems.
    pub date_type: String,
    /// If `true`, the old file name is kept at the end of the new one:
    /// `test.txt` becomes something like `2021-04-22 test.txt` instead of
    /// `2021-04-22.txt`.
    pub preserve_name: bool,
    /// The file extensions to be ignored during sorting.
    pub exclude_type: Vec<String>,
    /// The file extensions to be exclusively sorted.  When non-empty, only
    /// files with one of these extensions are sorted and `exclude_type` is
    /// ignored entirely.
    pub only_type: Vec<String>,
}

impl Sorter {
    /// A new [`Sorter`] sorting from `source` into `target`, configured by
    /// the JSON configuration data in `json_string` (see
    /// [`ConfigData::from_json`] for the payload's shape).  The two
    /// directories pass through; every other field comes from the payload,
    /// as [`config_of`] reads it.  A malformed payload is reported as
    /// [`SortError::ConfigParseError`].
    pub fn from_json(json_string: String, source: File, target: File) -> (r: Result<
        Sorter,
        SortError,
    >)
        ensures
            match r {
                Result::Ok(s) => s.source@ == source@ && s.target@ == target@ && (config_of(
                    json_string@,
                ) matches Some(v) && s.date_format@ == v.date_format && s.date_type@
                    == v.date_type && s.exclude_type.deep_view() == v.exclude_type
                    && s.only_type.deep_view() == v.only_type && s.preserve_name
                    == v.preserve_name),
                Result::Err(e) => e is ConfigParseError && config_of(json_string@) is None,
            },
    {
        let data = match ConfigData::from_json(&json_string) {
            Result::Ok(d) => d,
            Result::Err(e) => {
                return Result::Err(e);
            },
        };
        Result::Ok(
            Sorter {
                source,
                target,
                date_format: data.date_format,
                date_type: data.date_type,
                preserve_name: data.preserve_name,
                exclude_type: data.exclude_type,
                only_type: data.only_type,
            },
        )
    }

    /// Whether `path`'s extension is one of the extensions in `types`.
    pub fn is_type(&self, path: &File, types: &Vec<String>) -> (r: bool)
        ensures
            r == type_views(types@).contains(extension_of(file_name_of(path@))),
    {
        let ext = path.extension();
        let n = types.len();
        let mut i: usize = 0;
        while i < n
            invariant
                i <= n,
                n == types@.len(),
                ext@ == extension_of(file_name_of(path@)),
                forall|j: int| 0 <= j < i ==> types@[j]@ != ext@,
            decreases n - i,
        {
            if types[i] == ext {
                proof {
                    assert(type_views(types@)[i as int] == ext@);
                }
                return true;
            }
            i = i + 1;
        }
        proof {
            assert forall|j: int| 0 <= j < type_views(types@).len() implies type_views(
                types@,
            )[j] != ext@ by {
                assert(types@[j]@ != ext@);
            }
        }
        false
    }

    /// Whether `path` is in scope for sorting, per the only-list and the
    /// exclude list.
    pub fn is_sortable(&self, path: &File) -> (r: bool)
        ensures
            r == eligible(
                file_name_of(path@),
                type_views(self.exclude_type@),
                type_views(self.only_type@),
            ),
    {
        if self.only_type.len() > 0 {
            self.is_type(path, &self.only_type)
        } else {
            !self.is_type(path, &self.exclude_type)
        }
    }
}

} // verus!
