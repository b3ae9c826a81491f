//! Commonly-used structs: the path wrapper [`File`] and the configuration
//! data loaded from JSON.

use vstd::prelude::*;
use vstd::string::StrSliceExecFns;
use vstd::string::StringExecFns;

use crate::errors::SortError;
use crate::paths::extension_of;
use crate::paths::file_name_of;
use crate::paths::find_last;
use crate::paths::join_paths;
use crate::paths::lemma_last_index_of;
use crate::paths::stem_of;

verus! {

/// A thin path wrapper.  A [`File`] holds a path as a plain string; its
/// file-name, stem and extension parts follow the path model of
/// [`crate::paths`].
#[derive(Debug)]
pub struct File {
    /// The path itself.
    pub path: String,
}

#[verifier::external_type_specification]
#[verifier::external_body]
pub struct ExPathBuf(std::path::PathBuf);

impl View for File {
    type V = Seq<char>;

    open spec fn view(&self) -> Seq<char> {
        self.path@
    }
}

impl PartialEq for File {
    fn eq(&self, other: &File) -> bool {
        self.path == other.path
    }
}

impl vstd::std_specs::cmp::PartialEqSpecImpl for File {
    open spec fn obeys_eq_spec() -> bool {
        true
    }

    open spec fn eq_spec(&self, other: &File) -> bool {
        self.path@ == other.path@
    }
}

/// Joining a [`File`] with a path-like value.
pub trait Join<T: View<V = Seq<char>>>: View<V = Seq<char>> {
    /// The joining of our path and `path`.
    fn join(&self, path: T) -> (r: File)
        ensures
            r@ == join_paths(self@, path@),
    ;
}

/// The joining of `base` and `rest`: a `/` is put between them unless `base`
/// is empty or already ends in `/`.
pub(crate) fn join_to(base: &String, rest: &str) -> (r: String)
    ensures
        r@ == join_paths(base@, rest@),
{
    let n = base.as_str().unicode_len();
    let mut s = base.clone();
    if n > 0 && base.as_str().get_char(n - 1) != '/' {
        s.append("/");
        proof {
            reveal_strlit("/");
            assert(s@ =~= base@ + seq!['/']);
        }
    }
    s.append(rest);
    proof {
        if n == 0 {
            assert(s@ =~= rest@);
        } else if base@[n - 1] == '/' {
            assert(s@ =~= base@ + rest@);
        } else {
            assert(s@ =~= base@ + seq!['/'] + rest@);
        }
    }
    s
}

impl Join<File> for File {
    /// The joining of our path and `path`.
    fn join(&self, path: File) -> (r: File) {
        File { path: join_to(&self.path, path.path.as_str()) }
    }
}

impl Join<String> for File {
    /// The joining of our path and `path`.
    fn join(&self, path: String) -> (r: File) {
        File { path: join_to(&self.path, path.as_str()) }
    }
}

impl<'j> Join<&'j str> for File {
    /// The joining of our path and `path`.
    fn join(&self, path: &str) -> (r: File) {
        File { path: join_to(&self.path, path) }
    }
}

impl File {
    /// A new [`File`] with `from` as the path.
    pub fn new(from: &str) -> (r: File)
        ensures
            r@ == from@,
    {
        File { path: String::from_str(from) }
    }

    /// A new [`File`] with the same path as ours.
    pub fn copy(&self) -> (r: File)
        ensures
            r@ == self@,
    {
        File { path: self.path.clone() }
    }

    /// The file name of our path: everything after the last `/`.
    pub fn file_name(&self) -> (r: String)
        ensures
            r@ == file_name_of(self@),
    {
        let n = self.path.as_str().unicode_len();
        proof {
            lemma_last_index_of(self.path@, '/');
        }
        match find_last(self.path.as_str(), '/') {
            Some(i) => String::from_str(self.path.as_str().substring_char(i + 1, n)),
            None => self.path.clone(),
        }
    }

    /// The extension of our path: the part of the file name after its last
    /// `.`, or the empty string when the file name has no `.`.
    pub fn extension(&self) -> (r: String)
        ensures
            r@ == extension_of(file_name_of(self@)),
    {
        let name = self.file_name();
        let n = name.as_str().unicode_len();
        proof {
            lemma_last_index_of(name@, '.');
        }
        match find_last(name.as_str(), '.') {
            Some(i) => String::from_str(name.as_str().substring_char(i + 1, n)),
            None => {
                proof {
                    assert(extension_of(name@) =~= Seq::<char>::empty());
                }
                String::new()
            },
        }
    }

    /// The stem of our path: the file name without its final extension.
    pub fn file_stem(&self) -> (r: String)
        ensures
            r@ == stem_of(file_name_of(self@)),
    {
        let name = self.file_name();
        proof {
            lemma_last_index_of(name@, '.');
        }
        match find_last(name.as_str(), '.') {
            Some(i) => String::from_str(name.as_str().substring_char(0, i)),
            None => name,
        }
    }

    /// Relies on std's `PathBuf::from` on a string slice: a fresh `PathBuf`
    /// holding the given path.
    #[verifier::external_body]
    fn make_path_buf(s: &str) -> std::path::PathBuf {
        std::path::PathBuf::from(s)
    }

    /// A [`std::path::PathBuf`] holding our path.
    pub fn to_path_buf(&self) -> std::path::PathBuf {
        Self::make_path_buf(self.path.as_str())
    }

    /// The path as a [`String`].
    pub fn to_string(&self) -> (r: String)
        ensures
            r@ == self@,
    {
        self.path.clone()
    }
}

/// The struct used for getting the config data from a JSON string.
#[derive(Debug)]
pub struct ConfigData {
    /// The date format used to rename the files.
    pub date_format: String,
    /// The date type to sort by: `"a"`, `"c"` or `"m"`.
    pub date_type: String,
    /// The file extensions to be ignored during sorting.
    pub exclude_type: Vec<String>,
    /// The file extensions to be exclusively sorted.
    pub only_type: Vec<String>,
    /// Whether the old file name is kept inside the new one.
    pub preserve_name: bool,
}

/// The view of one parsed configuration payload: the five fields as plain
/// mathematical values.
pub struct ConfigView {
    /// The date format string.
    pub date_format: Seq<char>,
    /// The date type string: one of `a`, `c`, `m`.
    pub date_type: Seq<char>,
    /// The excluded extensions.
    pub exclude_type: Seq<Seq<char>>,
    /// The exclusively sorted extensions.
    pub only_type: Seq<Seq<char>>,
    /// Whether the old file name is kept inside the new one.
    pub preserve_name: bool,
}

/// The string member of the JSON object in the document `s` under `key`,
/// when `s` parses to an object holding a string there: a function of the
/// document and the key alone, as serde_json parses it.
pub uninterp spec fn json_string_member(s: Seq<char>, key: Seq<char>) -> Option<Seq<char>>;

/// The boolean member of the JSON object in the document `s` under `key`,
/// when `s` parses to an object holding a boolean there.
pub uninterp spec fn json_bool_member(s: Seq<char>, key: Seq<char>) -> Option<bool>;

/// The string-array member of the JSON object in the document `s` under
/// `key`, when `s` parses to an object holding an array of strings there.
pub uninterp spec fn json_string_list_member(s: Seq<char>, key: Seq<char>) -> Option<
    Seq<Seq<char>>,
>;

/// Relies on `serde_json::from_str` on a generic JSON value and
/// `Value::get` / `Value::as_str`: what they hand back is a function of the
/// document and the key alone, named by [`json_string_member`].
#[verifier::external_body]
fn parse_string_member(s: &str, key: &str) -> (r: Option<String>)
    ensures
        match r {
            Some(v) => json_string_member(s@, key@) == Some(v@),
            None => json_string_member(s@, key@) is None,
        },
{
    match serde_json::from_str::<serde_json::Value>(s) {
        Ok(doc) => doc.get(key).and_then(|f| f.as_str()).map(|x| x.to_string()),
        Err(_) => None,
    }
}

/// Relies on `serde_json::from_str` on a generic JSON value and
/// `Value::get` / `Value::as_bool`: what they hand back is a function of
/// the document and the key alone, named by [`json_bool_member`].
#[verifier::external_body]
fn parse_bool_member(s: &str, key: &str) -> (r: Option<bool>)
    ensures
        match r {
            Some(v) => json_bool_member(s@, key@) == Some(v),
            None => json_bool_member(s@, key@) is None,
        },
{
    match serde_json::from_str::<serde_json::Value>(s) {
        Ok(doc) => doc.get(key).and_then(|f| f.as_bool()),
        Err(_) => None,
    }
}

/// Relies on `serde_json::from_str` on a generic JSON value and
/// `Value::get` / `Value::as_array` / `Value::as_str`: what they hand back
/// is a function of the document and the key alone, named by
/// [`json_string_list_member`].
#[verifier::external_body]
fn parse_string_list_member(s: &str, key: &str) -> (r: Option<Vec<String>>)
    ensures
        match r {
            Some(v) => json_string_list_member(s@, key@) == Some(v.deep_view()),
            None => json_string_list_member(s@, key@) is None,
        },
{
    let doc = match serde_json::from_str::<serde_json::Value>(s) {
        Ok(d) => d,
        Err(_) => return None,
    };
    let arr = doc.get(key)?.as_array()?;
    arr.iter().map(|e| e.as_str().map(|x| x.to_string())).collect()
}

/// Whether a date-type string is one of the three admitted ones: `a`
/// (accessed), `c` (created) or `m` (modified).
pub open spec fn valid_date_type(dt: Seq<char>) -> bool {
    dt.len() == 1 && (dt[0] == 'a' || dt[0] == 'c' || dt[0] == 'm')
}

/// Whether `dt` is one of the three admitted date-type strings.
fn valid_date_type_check(dt: &str) -> (r: bool)
    ensures
        r == valid_date_type(dt@),
{
    if vstd::string::StrSliceExecFns::unicode_len(dt) == 1 {
        let c = vstd::string::StrSliceExecFns::get_char(dt, 0);
        c == 'a' || c == 'c' || c == 'm'
    } else {
        false
    }
}

/// The configuration held by the JSON document `s`, when it holds one: an
/// object with string members `date_format` and `date_type` (the latter
/// one of `a`, `c`, `m`), string-array members `exclude_type` and
/// `only_type`, and a boolean member `preserve_name`.
pub open spec fn config_of(s: Seq<char>) -> Option<ConfigView> {
    match (
        json_string_member(s, "date_format"@),
        json_string_member(s, "date_type"@),
        json_string_list_member(s, "exclude_type"@),
        json_string_list_member(s, "only_type"@),
        json_bool_member(s, "preserve_name"@),
    ) {
        (Some(df), Some(dt), Some(ex), Some(on), Some(pn)) => if valid_date_type(dt) {
            Some(
                ConfigView {
                    date_format: df,
                    date_type: dt,
                    exclude_type: ex,
                    only_type: on,
                    preserve_name: pn,
                },
            )
        } else {
            None
        },
        _ => None,
    }
}

impl ConfigData {
    /// An instance of [`ConfigData`] holding the configuration in the JSON
    /// string `json`.  The payload must be an object with string members
    /// `date_format` and `date_type` (the latter one of `"a"`, `"c"`,
    /// `"m"`), string-array members `exclude_type` and `only_type`, and a
    /// boolean member `preserve_name`; anything else is reported as
    /// [`SortError::ConfigParseError`].  [`config_of`] says exactly which
    /// documents are accepted and what each field then holds.
    pub fn from_json(json: &String) -> (r: Result<ConfigData, SortError>)
        ensures
            match r {
                Result::Ok(c) => config_of(json@) matches Some(v) && c.date_format@
                    == v.date_format && c.date_type@ == v.date_type && c.exclude_type.deep_view()
                    == v.exclude_type && c.only_type.deep_view() == v.only_type && c.preserve_name
                    == v.preserve_name,
                Result::Err(e) => e is ConfigParseError && config_of(json@) is None,
            },
    {
        let date_format = match parse_string_member(json.as_str(), "date_format") {
            Option::Some(s) => s,
            Option::None => {
                return Result::Err(SortError::ConfigParseError);
            },
        };
        let date_type = match parse_string_member(json.as_str(), "date_type") {
            Option::Some(s) => s,
            Option::None => {
                return Result::Err(SortError::ConfigParseError);
            },
        };
        let exclude_type = match parse_string_list_member(json.as_str(), "exclude_type") {
            Option::Some(l) => l,
            Option::None => {
                return Result::Err(SortError::ConfigParseError);
            },
        };
        let only_type = match parse_string_list_member(json.as_str(), "only_type") {
            Option::Some(l) => l,
            Option::None => {
                return Result::Err(SortError::ConfigParseError);
            },
        };
        let preserve_name = match parse_bool_member(json.as_str(), "preserve_name") {
            Option::Some(b) => b,
            Option::None => {
                return Result::Err(SortError::ConfigParseError);
            },
        };
        if !valid_date_type_check(date_type.as_str()) {
            return Result::Err(SortError::ConfigParseError);
        }
        Result::Ok(ConfigData { date_format, date_type, exclude_type, only_type, preserve_name })
    }
}

} // verus!
