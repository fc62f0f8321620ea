use vstd::prelude::*;

use vstd::string::StrSliceExecFns;

verus! {

/// The file-name suffix of a bibliography file.
pub open spec fn bib_suffix() -> Seq<char> {
    seq!['.', 'b', 'i', 'b']
}

/// The file-name prefix that marks a file as an earlier output of this tool.
pub open spec fn output_prefix() -> Seq<char> {
    seq!['[', 'b', 'i', 'b', '_', 'u', 'n', 'i', 'f', 'i', 'e', 'r', ']']
}

/// A file takes part in the unification when its name ends in `.bib` with a
/// non-empty stem and does not begin with `[bib_unifier]`, the mark of an
/// earlier output of the tool itself.
pub open spec fn include_path_spec(name: Seq<char>) -> bool {
    &&& name.len() > 4
    &&& name.skip(name.len() - 4) == bib_suffix()
    &&& !(name.len() >= 13 && name.take(13) == output_prefix())
}

/// Checks whether a file name belongs to the unification (see
/// [`include_path_spec`]).
pub fn include_path(filename: &str) -> (r: bool)
    ensures
        r == include_path_spec(filename@),
{
    let ghost s = filename@;
    let n = filename.unicode_len();
    if n <= 4 {
        return false;
    }
    let suffix_ok = filename.get_char(n - 4) == '.' && filename.get_char(n - 3) == 'b'
        && filename.get_char(n - 2) == 'i' && filename.get_char(n - 1) == 'b';
    proof {
        if suffix_ok {
            assert(s.skip(s.len() - 4) =~= bib_suffix());
        } else {
            assert(s.skip(s.len() - 4) != bib_suffix()) by {
                assert(s.skip(s.len() - 4)[0] == s[s.len() - 4]);
                assert(s.skip(s.len() - 4)[1] == s[s.len() - 3]);
                assert(s.skip(s.len() - 4)[2] == s[s.len() - 2]);
                assert(s.skip(s.len() - 4)[3] == s[s.len() - 1]);
            }
        }
    }
    if !suffix_ok {
        return false;
    }
    if n >= 13 {
        let prefix_hit = filename.get_char(0) == '[' && filename.get_char(1) == 'b'
            && filename.get_char(2) == 'i' && filename.get_char(3) == 'b' && filename.get_char(4)
            == '_' && filename.get_char(5) == 'u' && filename.get_char(6) == 'n'
            && filename.get_char(7) == 'i' && filename.get_char(8) == 'f' && filename.get_char(9)
            == 'i' && filename.get_char(10) == 'e' && filename.get_char(11) == 'r'
            && filename.get_char(12) == ']';
        proof {
            if prefix_hit {
                assert(s.take(13) =~= output_prefix());
            } else {
                assert(s.take(13) != output_prefix()) by {
                    assert forall|k: int| 0 <= k < 13 implies s.take(13)[k] == s[k] by {}
                }
            }
        }
        !prefix_hit
    } else {
        true
    }
}

} // verus!
