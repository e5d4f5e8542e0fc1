//! The rule the standalone wav scanner uses to pick files: a file takes
//! part exactly when its name ends in the wav suffix.  The directory walk
//! and the decoding live outside the library.

use vstd::prelude::*;
use vstd::string::*;

verus! {

/// Whether a file name ends in `.wav`.
pub fn is_wav_name(name: &str) -> (r: bool)
    ensures
        r == (name@.len() >= 4 && name@.subrange(
            name@.len() - 4,
            name@.len() as int,
        ) == ".wav"@),
{
    proof {
        reveal_strlit(".wav");
    }
    let n = name.unicode_len();
    if n < 4 {
        return false;
    }
    let c0 = name.get_char(n - 4);
    let c1 = name.get_char(n - 3);
    let c2 = name.get_char(n - 2);
    let c3 = name.get_char(n - 1);
    let r = c0 == '.' && c1 == 'w' && c2 == 'a' && c3 == 'v';
    proof {
        let tail = name@.subrange(name@.len() - 4, name@.len() as int);
        if r {
            assert(tail =~= ".wav"@);
        } else {
            assert(tail[0] == c0 && tail[1] == c1 && tail[2] == c2 && tail[3] == c3);
        }
    }
    r
}

} // verus!
