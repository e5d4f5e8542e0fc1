//! The sample bank loader's path and naming rules, on Unix-style path
//! strings: expanding a leading `~` to the home directory, resolving
//! relative paths against the working directory, filtering for decodable
//! audio files, and deriving each sample's engine key from its file name
//! (with the parent directory as a namespace prefix one level down).
//!
//! Walking directories and decoding audio stay outside the library; every
//! rule they follow is fixed here.

use vstd::prelude::*;
use vstd::string::*;

verus! {

/// A path is absolute when it starts with the path separator.
pub open spec fn spec_is_absolute(p: Seq<char>) -> bool {
    p.len() > 0 && p[0] == '/'
}

/// `p` without its leading path separators.
pub open spec fn spec_trim_slashes(p: Seq<char>) -> Seq<char>
    decreases p.len(),
{
    if p.len() == 0 || p[0] != '/' {
        p
    } else {
        spec_trim_slashes(p.drop_first())
    }
}

/// Joining a relative path onto a base, as paths concatenate on Unix: an
/// absolute right side stands alone; otherwise a separator goes between
/// unless the base already ends with one.
pub open spec fn spec_join(base: Seq<char>, rel: Seq<char>) -> Seq<char> {
    if spec_is_absolute(rel) {
        rel
    } else if base.len() > 0 && base[base.len() - 1] == '/' {
        base + rel
    } else {
        base + seq!['/'] + rel
    }
}

/// Where a configured sample path points: a leading `~` becomes the home
/// directory when one is known, and a path still relative after that is
/// taken from the working directory.
pub open spec fn spec_expand_home(
    path: Seq<char>,
    home: Option<Seq<char>>,
    cwd: Seq<char>,
) -> Seq<char> {
    let base = if path.len() > 0 && path[0] == '~' && home is Some {
        spec_join(home->0, spec_trim_slashes(path.drop_first()))
    } else {
        path
    };
    if spec_is_absolute(base) {
        base
    } else {
        spec_join(cwd, base)
    }
}

/// `s` without its leading path separators.
fn trim_leading_slashes(s: &str) -> (r: String)
    ensures
        r@ == spec_trim_slashes(s@),
{
    let n = s.unicode_len();
    proof {
        assert(s@.skip(0) =~= s@);
    }
    let mut i: usize = 0;
    while i < n && s.get_char(i) == '/'
        invariant
            n == s@.len(),
            i <= n,
            spec_trim_slashes(s@) == spec_trim_slashes(s@.skip(i as int)),
        decreases n - i,
    {
        proof {
            assert(s@.skip(i as int)[0] == s@[i as int]);
            assert(s@.skip(i as int).drop_first() =~= s@.skip(i as int + 1));
        }
        i = i + 1;
    }
    proof {
        assert(s@.skip(i as int) =~= s@.subrange(i as int, n as int));
        if i < n {
            assert(s@.skip(i as int)[0] == s@[i as int]);
        }
        assert(spec_trim_slashes(s@.skip(i as int)) == s@.skip(i as int));
    }
    s.substring_char(i, n).to_owned()
}

/// Join a relative path onto a base path.
pub fn path_join(base: &str, rel: &str) -> (r: String)
    ensures
        r@ == spec_join(base@, rel@),
{
    let rel_len = rel.unicode_len();
    if rel_len > 0 && rel.get_char(0) == '/' {
        return rel.to_owned();
    }
    let base_len = base.unicode_len();
    if base_len > 0 && base.get_char(base_len - 1) == '/' {
        base.to_owned().concat(rel)
    } else {
        let joined = base.to_owned().concat("/").concat(rel);
        proof {
            reveal_strlit("/");
            assert(base@ + "/"@ + rel@ =~= base@ + seq!['/'] + rel@);
        }
        joined
    }
}

/// Expand a configured sample directory path: `~` becomes the home
/// directory when one is known, and a relative result is resolved against
/// the working directory.
pub fn expand_home_dir(path: &str, home: Option<&str>, cwd: &str) -> (r: String)
    ensures
        r@ == spec_expand_home(
            path@,
            match home {
                Some(h) => Some(h@),
                None => None,
            },
            cwd@,
        ),
{
    let path_len = path.unicode_len();
    let base: String = if path_len > 0 && path.get_char(0) == '~' {
        match home {
            Some(h) => {
                let rest = path.substring_char(1, path_len);
                proof {
                    assert(rest@ =~= path@.drop_first());
                }
                let trimmed = trim_leading_slashes(rest);
                path_join(h, trimmed.as_str())
            },
            None => path.to_owned(),
        }
    } else {
        path.to_owned()
    };
    let base_len = base.as_str().unicode_len();
    if base_len > 0 && base.as_str().get_char(0) == '/' {
        base
    } else {
        path_join(cwd, base.as_str())
    }
}

/// The engine key of a sample file: a backslash, then the parent directory
/// name as a namespace prefix when the file sits one level below a sample
/// root (depth two in the walk), then the file stem.
pub fn sample_key(parent: &str, depth: usize, stem: &str) -> (r: String)
    ensures
        r@ == seq!['\\'] + (if depth == 2 {
            parent@
        } else {
            Seq::<char>::empty()
        }) + stem@,
{
    let prefixed = if depth == 2 {
        String::from_str("\\").concat(parent)
    } else {
        String::from_str("\\")
    };
    let r = prefixed.concat(stem);
    proof {
        reveal_strlit("\\");
        assert("\\"@ =~= seq!['\\']);
        if depth == 2 {
            assert(r@ =~= seq!['\\'] + parent@ + stem@);
        } else {
            assert(r@ =~= seq!['\\'] + Seq::<char>::empty() + stem@);
        }
    }
    r
}

/// Whether a file extension marks a decodable sample file: exactly `wav`,
/// `mp3` or `ogg`.
pub fn is_sample_extension(ext: &str) -> (r: bool)
    ensures
        r == (ext@ == "wav"@ || ext@ == "mp3"@ || ext@ == "ogg"@),
{
    proof {
        reveal_strlit("wav");
        reveal_strlit("mp3");
        reveal_strlit("ogg");
    }
    if ext.unicode_len() != 3 {
        return false;
    }
    let c0 = ext.get_char(0);
    let c1 = ext.get_char(1);
    let c2 = ext.get_char(2);
    let r = (c0 == 'w' && c1 == 'a' && c2 == 'v') || (c0 == 'm' && c1 == 'p' && c2 == '3') || (c0
        == 'o' && c1 == 'g' && c2 == 'g');
    proof {
        if c0 == 'w' && c1 == 'a' && c2 == 'v' {
            assert(ext@ =~= "wav"@);
        }
        if c0 == 'm' && c1 == 'p' && c2 == '3' {
            assert(ext@ =~= "mp3"@);
        }
        if c0 == 'o' && c1 == 'g' && c2 == 'g' {
            assert(ext@ =~= "ogg"@);
        }
    }
    r
}

/// Whether a directory entry is hidden and must be skipped by the sample
/// walk: its name starts with a dot.
pub fn is_hidden_name(name: &str) -> (r: bool)
    ensures
        r == (name@.len() > 0 && name@[0] == '.'),
{
    name.unicode_len() > 0 && name.get_char(0) == '.'
}

} // verus!
