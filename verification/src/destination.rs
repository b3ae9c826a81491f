//! The destination path builder.
//!
//! A file's candidate destination lies under the target root in a
//! `<year>/<month>/` directory taken from its timestamp, and is named after
//! the timestamp rendered with the configured pattern, optionally followed
//! by a space and the source file's stem, always followed by a `.` and the
//! source file's extension (a file without an extension keeps a trailing
//! `.` with nothing after it).

use vstd::prelude::*;
use vstd::string::StringExecFns;

use crate::paths::extension_of;
use crate::paths::file_name_of;
use crate::paths::join_paths;
use crate::paths::padded_dec;
use crate::paths::stem_of;
use crate::paths::padded_dec_string;
use crate::errors::SortError;
use crate::stamp::render_stamp;
use crate::stamp::stamp_rendered;
use crate::stamp::LocalStamp;
use crate::structs::join_to;
use crate::structs::File;
use crate::Sorter;

verus! {

/// The year component of the date directory: the year zero-padded to four
/// digits, with a leading `-` for a negative year.
pub open spec fn year_digits(year: int) -> Seq<char> {
    if year >= 0 {
        padded_dec(year as nat, 4)
    } else {
        seq!['-'] + padded_dec((-year) as nat, 4)
    }
}

/// The month component of the date directory: the month zero-padded to two
/// digits.
pub open spec fn month_digits(month: int) -> Seq<char> {
    padded_dec(month as nat, 2)
}

/// The date directory for a timestamp: `<year>/<month>/`.
pub open spec fn date_dir_of(year: int, month: int) -> Seq<char> {
    year_digits(year) + seq!['/'] + month_digits(month) + seq!['/']
}

/// The destination file name: the rendered timestamp, then (when the
/// original name is preserved) a space and the stem of `name`, then a `.`
/// and the extension of `name`.
pub open spec fn dest_name_of(rendered: Seq<char>, name: Seq<char>, preserve: bool) -> Seq<
    char,
> {
    if preserve {
        rendered + seq![' '] + stem_of(name) + seq!['.'] + extension_of(name)
    } else {
        rendered + seq!['.'] + extension_of(name)
    }
}

/// The candidate destination of a file named `name` under `target`, before
/// any collision resolution.
pub open spec fn candidate_of(
    target: Seq<char>,
    year: int,
    month: int,
    rendered: Seq<char>,
    name: Seq<char>,
    preserve: bool,
) -> Seq<char> {
    join_paths(join_paths(target, date_dir_of(year, month)), dest_name_of(rendered, name, preserve))
}

/// The candidate destination of `source` under `target`, built from the
/// already-rendered timestamp `rendered` and the timestamp's year and month.
pub fn compose_destination(
    target: &File,
    rendered: &str,
    source: &File,
    preserve_name: bool,
    year: i32,
    month: u8,
) -> (r: File)
    ensures
        r@ == candidate_of(
            target@,
            year as int,
            month as int,
            rendered@,
            file_name_of(source@),
            preserve_name,
        ),
{
    // The `<year>/<month>/` directory.
    let mut dir = String::new();
    let y = year as i64;
    if y < 0 {
        dir.append("-");
        proof {
            reveal_strlit("-");
        }
        let pos = (-y) as u64;
        let p = padded_dec_string(pos, 4);
        dir.append(p.as_str());
        proof {
            assert(dir@ =~= year_digits(year as int));
        }
    } else {
        let p = padded_dec_string(y as u64, 4);
        dir.append(p.as_str());
        proof {
            assert(dir@ =~= year_digits(year as int));
        }
    }
    dir.append("/");
    let m = padded_dec_string(month as u64, 2);
    dir.append(m.as_str());
    dir.append("/");
    proof {
        reveal_strlit("/");
        assert(dir@ =~= date_dir_of(year as int, month as int));
    }
    let with_dir = File { path: join_to(&target.path, dir.as_str()) };

    // The destination file name.
    let mut name = String::from_str(rendered);
    if preserve_name {
        name.append(" ");
        proof {
            reveal_strlit(" ");
        }
        let stem = source.file_stem();
        name.append(stem.as_str());
    }
    name.append(".");
    let ext = source.extension();
    name.append(ext.as_str());
    proof {
        reveal_strlit(".");
        assert(name@ =~= dest_name_of(rendered@, file_name_of(source@), preserve_name));
    }
    File { path: join_to(&with_dir.path, name.as_str()) }
}

impl Sorter {
    /// The candidate destination for the file at `path` whose timestamp has
    /// the local calendar fields `st`: under the target root, in the
    /// `<year>/<month>/` directory, named after the timestamp rendered with
    /// the configured date format.  A date format chrono cannot render is
    /// reported as [`SortError::DateFormatInvalid`].
    pub fn get_new_date_path(&self, path: &File, st: &LocalStamp) -> (r: Result<File, SortError>)
        ensures
            match r {
                Result::Ok(f) => stamp_rendered(*st, self.date_format@) matches Some(rendered)
                    && f@ == candidate_of(
                    self.target@,
                    st.year as int,
                    st.month as int,
                    rendered,
                    file_name_of(path@),
                    self.preserve_name,
                ),
                Result::Err(e) => stamp_rendered(*st, self.date_format@) is None && (
                e matches SortError::DateFormatInvalid { path: q } && q@ == path@),
            },
    {
        match render_stamp(st, self.date_format.as_str()) {
            Option::Some(rendered) => Result::Ok(
                compose_destination(
                    &self.target,
                    rendered.as_str(),
                    path,
                    self.preserve_name,
                    st.year,
                    st.month,
                ),
            ),
            Option::None => Result::Err(SortError::DateFormatInvalid { path: path.to_string() }),
        }
    }
}

} // verus!
