//! Discovering test functions by scanning source text, without compiling
//! anything.
//!
//! The caller walks the file tree and reads files; this module holds the
//! decisions: which entries are worth visiting, and what a file's lines
//! declare.  A line whose trimmed text equals the `#[test]` marker arms
//! the scanner; the next line is inspected for a function keyword and the
//! scanner disarms either way, so a signature split across several lines
//! is missed, never an error.

use vstd::prelude::*;
use vstd::string::StrSliceExecFns;

use crate::select::Target;
use crate::select::TestTarget;
use crate::strings::ends_with;
use crate::strings::ends_with_str;
use crate::strings::find_char;
use crate::strings::starts_with;
use crate::strings::str_eq;
use crate::strings::strip_prefix_str;
use crate::strings::trim;
use crate::strings::trim_str;

verus! {

/// What remains of a signature line behind its function keyword: behind
/// `fn` first, else behind `pub fn`; absent when neither prefix fits.
pub open spec fn fn_keyword_rest(l: Seq<char>) -> Option<Seq<char>> {
    if starts_with(l, "fn"@) {
        Some(l.skip("fn"@.len() as int))
    } else if starts_with(l, "pub fn"@) {
        Some(l.skip("pub fn"@.len() as int))
    } else {
        None
    }
}

/// The name extracted from what follows the keyword: everything up to the
/// first parameter-list parenthesis — or, when there is none, up to the
/// last character — trimmed.
pub open spec fn extracted_name(rest: Seq<char>) -> Seq<char> {
    let cut = match rest.index_of_first('(') {
        Some(i) => i,
        None => if rest.len() > 0 {
            rest.len() - 1
        } else {
            0
        },
    };
    trim(rest.take(cut))
}

/// The test names a file's lines declare, in order.  A trimmed line equal
/// to the marker arms the scanner (re-arming while armed); an armed
/// scanner reads a name from a following keyword line and disarms after
/// the check whatever its outcome.
pub open spec fn scanned_names(lines: Seq<Seq<char>>, armed: bool) -> Seq<Seq<char>>
    decreases lines.len(),
{
    if lines.len() == 0 {
        Seq::empty()
    } else {
        let l = trim(lines[0]);
        if l == "#[test]"@ {
            scanned_names(lines.drop_first(), true)
        } else if armed {
            match fn_keyword_rest(l) {
                Some(rest) => seq![extracted_name(rest)] + scanned_names(
                    lines.drop_first(),
                    false,
                ),
                None => scanned_names(lines.drop_first(), false),
            }
        } else {
            scanned_names(lines.drop_first(), false)
        }
    }
}

/// Whether `t` is the test target named `name` in the file at `path`.
pub open spec fn is_test_target(t: Target, name: Seq<char>, path: Seq<char>) -> bool {
    match t {
        Target::Test(tt) => tt.name@ == name && tt.path@ == path,
        _ => false,
    }
}

/// Whether a directory entry is worth visiting during the test walk: a
/// file carrying the Rust source suffix, or a directory other than the
/// conventional build-output directory.
pub fn is_rust_source_or_dir(file_name: &str, is_dir: bool) -> (r: bool)
    ensures
        r == (ends_with(file_name@, ".rs"@) || (is_dir && file_name@ != "target"@)),
{
    if ends_with_str(file_name, ".rs") {
        true
    } else if is_dir {
        !str_eq(file_name, "target")
    } else {
        false
    }
}

/// Scans the lines of one source file, read from `path`, for test
/// functions: one test target per name that [`scanned_names`] reads from
/// the lines, in order.
pub fn get_tests_from_file(path: &str, lines: &Vec<String>) -> (res: Vec<Target>)
    ensures
        res@.len() == scanned_names(lines.deep_view(), false).len(),
        forall|i: int|
            0 <= i < res@.len() ==> is_test_target(
                #[trigger] res@[i],
                scanned_names(lines.deep_view(), false)[i],
                path@,
            ),
{
    let ghost ls = lines.deep_view();
    let mut res: Vec<Target> = Vec::new();
    let ghost mut emitted: Seq<Seq<char>> = Seq::empty();
    let mut armed: bool = false;
    let mut i: usize = 0;
    proof {
        assert(ls.skip(0) =~= ls);
        assert(emitted + scanned_names(ls.skip(0), false) =~= scanned_names(ls, false));
    }
    while i < lines.len()
        invariant
            i <= ls.len(),
            ls == lines.deep_view(),
            ls.len() == lines@.len(),
            scanned_names(ls, false) == emitted + scanned_names(ls.skip(i as int), armed),
            res@.len() == emitted.len(),
            forall|k: int|
                0 <= k < res@.len() ==> is_test_target(#[trigger] res@[k], emitted[k], path@),
        decreases ls.len() - i,
    {
        let ghost emitted0 = emitted;
        let ghost armed0 = armed;
        let line = trim_str(lines[i].as_str());
        proof {
            assert(ls[i as int] == lines@[i as int]@);
            assert(ls.skip(i as int)[0] == ls[i as int]);
            assert(ls.skip(i as int).drop_first() =~= ls.skip(i + 1));
            assert(line@ == trim(ls.skip(i as int)[0]));
        }
        if str_eq(line, "#[test]") {
            armed = true;
            proof {
                assert(scanned_names(ls.skip(i as int), armed0) == scanned_names(
                    ls.skip(i + 1),
                    true,
                ));
            }
        } else if armed {
            let stripped = match strip_prefix_str(line, "fn") {
                Some(rest) => Some(rest),
                None => strip_prefix_str(line, "pub fn"),
            };
            match stripped {
                Some(rest) => {
                    proof {
                        assert(fn_keyword_rest(line@) == Some(rest@));
                    }
                    let rlen: usize = rest.unicode_len();
                    proof {
                        rest@.index_of_first_ensures('(');
                    }
                    let cut: usize = match find_char(rest, '(') {
                        Some(p) => p,
                        None => {
                            if rlen > 0 {
                                rlen - 1
                            } else {
                                0
                            }
                        },
                    };
                    let head = rest.substring_char(0, cut);
                    let name = trim_str(head);
                    proof {
                        assert(head@ =~= rest@.take(cut as int));
                        assert(name@ == extracted_name(rest@));
                    }
                    res.push(
                        Target::Test(TestTarget { name: name.to_owned(), path: path.to_owned() }),
                    );
                    armed = false;
                    proof {
                        emitted = emitted.push(name@);
                        assert(scanned_names(ls.skip(i as int), true) == seq![extracted_name(
                            rest@,
                        )] + scanned_names(ls.skip(i + 1), false));
                        assert(emitted0 + scanned_names(ls.skip(i as int), true) =~= emitted
                            + scanned_names(ls.skip(i + 1), false));
                    }
                },
                None => {
                    proof {
                        assert(fn_keyword_rest(line@) is None);
                        assert(scanned_names(ls.skip(i as int), true) == scanned_names(
                            ls.skip(i + 1),
                            false,
                        ));
                    }
                    armed = false;
                },
            }
        } else {
            proof {
                assert(scanned_names(ls.skip(i as int), false) == scanned_names(
                    ls.skip(i + 1),
                    false,
                ));
            }
        }
        i = i + 1;
    }
    proof {
        assert(ls.skip(ls.len() as int) =~= Seq::<Seq<char>>::empty());
        assert(scanned_names(ls, false) =~= emitted);
    }
    res
}

} // verus!
