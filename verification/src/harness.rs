//! Which files decide whether a harness is on PATH.

use vstd::prelude::*;

use crate::app::{join_path, join_path_exec};
use crate::config::Harness;
use crate::text::{chars_of, contains_char, pieces, split_char, string_of};

verus! {

/// The files that decide whether `program` can be launched with `path` as
/// PATH: the program itself when it names a path (holds a `/`), else the
/// program joined onto each PATH entry, none without PATH.
pub open spec fn program_files(program: Seq<char>, path: Option<Seq<char>>) -> Seq<Seq<char>> {
    if program.contains('/') {
        seq![program]
    } else {
        match path {
            None => Seq::empty(),
            Some(p) => pieces(p, ':').map_values(|dir: Seq<char>| join_path(dir, program)),
        }
    }
}

/// The files to check for `harness` on `path` (a PATH-style list): `None`
/// when it is always available (Shell, with no program); else the harness
/// is available when one of them is an executable file.
pub fn executable_candidates(harness: &Harness, path: Option<&str>) -> (r: Option<Vec<String>>)
    ensures
        match harness.program_spec() {
            None => r is None,
            Some(p) => r matches Some(files) && files.deep_view() == program_files(
                p,
                match path {
                    Some(s) => Some(s@),
                    None => None,
                },
            ),
        },
{
    let program = match harness.program() {
        None => {
            return None;
        },
        Some(p) => p,
    };
    let pc = chars_of(program);
    let mut files: Vec<String> = Vec::new();
    if contains_char(pc.as_slice(), '/') {
        files.push(string_of(pc.as_slice()));
        assert(files.deep_view() =~= seq![program@]);
        return Some(files);
    }
    let text = match path {
        None => {
            assert(files.deep_view() =~= Seq::<Seq<char>>::empty());
            return Some(files);
        },
        Some(t) => t,
    };
    let dirs = split_char(chars_of(text).as_slice(), ':');
    let ghost want = pieces(text@, ':').map_values(|dir: Seq<char>| join_path(dir, program@));
    let mut i: usize = 0;
    while i < dirs.len()
        invariant
            i <= dirs@.len(),
            dirs@.len() == pieces(text@, ':').len(),
            forall|m: int| 0 <= m < dirs@.len() ==> #[trigger] dirs@[m]@ == pieces(text@, ':')[m],
            pc@ == program@,
            want == pieces(text@, ':').map_values(|dir: Seq<char>| join_path(dir, program@)),
            files.deep_view() =~= want.take(i as int),
        decreases dirs.len() - i,
    {
        let ghost before = files.deep_view();
        let joined = join_path_exec(dirs[i].as_slice(), pc.as_slice());
        let file = string_of(joined.as_slice());
        assert(want.len() == dirs@.len());
        assert(want[i as int] == join_path(dirs@[i as int]@, program@));
        assert(file@ == want[i as int]);
        files.push(file);
        assert(files.deep_view() =~= before.push(want[i as int]));
        assert(want.take(i + 1) =~= want.take(i as int).push(want[i as int]));
        i = i + 1;
    }
    assert(want.take(want.len() as int) =~= want);
    Some(files)
}

} // verus!
