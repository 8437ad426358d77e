//! Name handling: splitting a file name into stem and extension the way a
//! path component is split (at the last dot, with a dot-led name having no
//! extension), folding ASCII case, and matching the extension against the
//! fixed allow-list of recognized image types.

use vstd::prelude::*;

verus! {

/// ASCII lowercasing of one character; anything but `'A'..='Z'` is kept.
pub open spec fn lower_char(c: char) -> char {
    if c == 'A' {
        'a'
    } else if c == 'B' {
        'b'
    } else if c == 'C' {
        'c'
    } else if c == 'D' {
        'd'
    } else if c == 'E' {
        'e'
    } else if c == 'F' {
        'f'
    } else if c == 'G' {
        'g'
    } else if c == 'H' {
        'h'
    } else if c == 'I' {
        'i'
    } else if c == 'J' {
        'j'
    } else if c == 'K' {
        'k'
    } else if c == 'L' {
        'l'
    } else if c == 'M' {
        'm'
    } else if c == 'N' {
        'n'
    } else if c == 'O' {
        'o'
    } else if c == 'P' {
        'p'
    } else if c == 'Q' {
        'q'
    } else if c == 'R' {
        'r'
    } else if c == 'S' {
        's'
    } else if c == 'T' {
        't'
    } else if c == 'U' {
        'u'
    } else if c == 'V' {
        'v'
    } else if c == 'W' {
        'w'
    } else if c == 'X' {
        'x'
    } else if c == 'Y' {
        'y'
    } else if c == 'Z' {
        'z'
    } else {
        c
    }
}

/// ASCII lowercasing of a whole string.
pub open spec fn lower_seq(s: Seq<char>) -> Seq<char> {
    Seq::new(s.len(), |i: int| lower_char(s[i]))
}

/// The index of the last `'.'` in `name`, or `-1` if there is none.
pub open spec fn last_dot(name: Seq<char>) -> int
    decreases name.len(),
{
    if name.len() == 0 {
        -1
    } else if name[name.len() - 1] == '.' {
        name.len() - 1
    } else {
        last_dot(name.drop_last())
    }
}

/// Splits a file name into stem and extension at the last dot. A name with
/// no dot, or whose only dot leads it (a hidden file), has no extension; a
/// name ending in a dot has the empty extension.
pub open spec fn split_ext(name: Seq<char>) -> Option<(Seq<char>, Seq<char>)> {
    let ld = last_dot(name);
    if ld <= 0 {
        None
    } else {
        Some((name.subrange(0, ld), name.subrange(ld + 1, name.len() as int)))
    }
}

/// Whether a (case-folded) extension is one of the recognized image types.
pub open spec fn allowed_ext(ext: Seq<char>) -> bool {
    let l = lower_seq(ext);
    ||| l == "jpg"@
    ||| l == "png"@
    ||| l == "jpeg"@
    ||| l == "gif"@
    ||| l == "tiff"@
    ||| l == "raw"@
    ||| l == "heic"@
}

/// Executable mirror of [`lower_char`].
fn lower_char_x(c: char) -> (r: char)
    ensures
        r == lower_char(c),
{
    match c {
        'A' => 'a',
        'B' => 'b',
        'C' => 'c',
        'D' => 'd',
        'E' => 'e',
        'F' => 'f',
        'G' => 'g',
        'H' => 'h',
        'I' => 'i',
        'J' => 'j',
        'K' => 'k',
        'L' => 'l',
        'M' => 'm',
        'N' => 'n',
        'O' => 'o',
        'P' => 'p',
        'Q' => 'q',
        'R' => 'r',
        'S' => 's',
        'T' => 't',
        'U' => 'u',
        'V' => 'v',
        'W' => 'w',
        'X' => 'x',
        'Y' => 'y',
        'Z' => 'z',
        _ => c,
    }
}

/// Whether `s` case-insensitively equals the (already lowercase) `token`.
fn eq_ignore_case(s: &str, token: &str) -> (r: bool)
    ensures
        r == (lower_seq(s@) == token@),
{
    let n = s.unicode_len();
    let m = token.unicode_len();
    if n != m {
        proof {
            assert(lower_seq(s@).len() != token@.len());
        }
        return false;
    }
    let mut i: usize = 0;
    while i < n
        invariant
            n == s@.len(),
            n == token@.len(),
            i <= n,
            forall|j: int| 0 <= j < i ==> lower_char(s@[j]) == token@[j],
        decreases n - i,
    {
        if lower_char_x(s.get_char(i)) != token.get_char(i) {
            proof {
                assert(lower_seq(s@)[i as int] != token@[i as int]);
            }
            return false;
        }
        i = i + 1;
    }
    proof {
        assert(lower_seq(s@) =~= token@);
    }
    true
}

/// Matches an extension against the allow-list, handing back the canonical
/// lowercase token used in generated names, or nothing when the file is not
/// a recognized image type.
pub fn match_allowed(ext: &str) -> (r: Option<&'static str>)
    ensures
        match r {
            Some(t) => t@ == lower_seq(ext@) && allowed_ext(ext@),
            None => !allowed_ext(ext@),
        },
{
    if eq_ignore_case(ext, "jpg") {
        Some("jpg")
    } else if eq_ignore_case(ext, "png") {
        Some("png")
    } else if eq_ignore_case(ext, "jpeg") {
        Some("jpeg")
    } else if eq_ignore_case(ext, "gif") {
        Some("gif")
    } else if eq_ignore_case(ext, "tiff") {
        Some("tiff")
    } else if eq_ignore_case(ext, "raw") {
        Some("raw")
    } else if eq_ignore_case(ext, "heic") {
        Some("heic")
    } else {
        None
    }
}

/// Finds the last dot of `name`, as [`last_dot`] names it.
fn find_last_dot(name: &str) -> (r: Option<usize>)
    ensures
        match r {
            Some(i) => i == last_dot(name@) && i < name@.len(),
            None => last_dot(name@) == -1,
        },
{
    let n = name.unicode_len();
    let mut j: usize = n;
    proof {
        assert(name@.subrange(0, n as int) =~= name@);
    }
    while j > 0
        invariant
            n == name@.len(),
            j <= n,
            last_dot(name@) == last_dot(name@.subrange(0, j as int)),
        decreases j,
    {
        if name.get_char(j - 1) == '.' {
            proof {
                let pre = name@.subrange(0, j as int);
                assert(pre[pre.len() - 1] == '.');
            }
            return Some(j - 1);
        }
        proof {
            let pre = name@.subrange(0, j as int);
            assert(pre[pre.len() - 1] != '.');
            assert(pre.drop_last() =~= name@.subrange(0, j - 1));
        }
        j = j - 1;
    }
    proof {
        assert(name@.subrange(0, 0) =~= Seq::<char>::empty());
    }
    None
}

/// Splits a file name into stem and extension, as [`split_ext`] says.
pub fn split_name(name: &str) -> (r: Option<(&str, &str)>)
    ensures
        match r {
            Some((stem, ext)) => split_ext(name@) == Some((stem@, ext@)),
            None => split_ext(name@) is None,
        },
{
    let n = name.unicode_len();
    match find_last_dot(name) {
        None => None,
        Some(i) => {
            if i == 0 {
                None
            } else {
                let stem = name.substring_char(0, i);
                let ext = name.substring_char(i + 1, n);
                Some((stem, ext))
            }
        },
    }
}

} // verus!
