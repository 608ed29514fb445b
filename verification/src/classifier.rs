//! Decides from a path's text alone whether a file is a candidate image.

use vstd::prelude::*;
use crate::text::{chars_of, last_index_of, lemma_last_index_of_is, lemma_last_index_of_none};

verus! {

/// The last component of `path`: what follows its last `/`.
pub open spec fn file_name(path: Seq<char>) -> Seq<char> {
    match last_index_of(path, '/') {
        Some(i) => path.skip(i + 1),
        None => path,
    }
}

/// The extension of `path`: what follows the last `.` of its file name.
/// A file name without a `.`, or whose only `.` is its first character,
/// has no extension.
pub open spec fn extension(path: Seq<char>) -> Option<Seq<char>> {
    let name = file_name(path);
    match last_index_of(name, '.') {
        Some(i) => if i > 0 {
            Some(name.skip(i + 1))
        } else {
            None
        },
        None => None,
    }
}

/// `c` with an ASCII capital letter replaced by its small letter.
pub open spec fn ascii_lower(c: char) -> char {
    if 'A' <= c <= 'Z' {
        ((c as u8) + 32) as char
    } else {
        c
    }
}

/// `s` with every ASCII capital letter replaced by its small letter.
pub open spec fn lowercase(s: Seq<char>) -> Seq<char> {
    Seq::new(s.len(), |i: int| ascii_lower(s[i]))
}

/// The extensions of supported image types, in small letters.
pub open spec fn supported_extensions() -> Seq<Seq<char>> {
    seq![
        seq!['j', 'p', 'g'],
        seq!['j', 'p', 'e', 'g'],
        seq!['p', 'n', 'g'],
        seq!['b', 'm', 'p'],
        seq!['g', 'i', 'f'],
        seq!['t', 'i', 'f', 'f'],
    ]
}

/// `ext` is, up to the case of ASCII letters, one of the supported extensions.
pub open spec fn is_supported_extension(ext: Seq<char>) -> bool {
    supported_extensions().contains(lowercase(ext))
}

/// A path is a candidate image when it has an extension and that extension
/// is supported.
pub open spec fn is_candidate(path: Seq<char>) -> bool {
    match extension(path) {
        Some(ext) => is_supported_extension(ext),
        None => false,
    }
}

/// The small letter of an ASCII capital letter; any other character unchanged.
fn to_lower(c: char) -> (lower: char)
    ensures
        lower == ascii_lower(c),
{
    if 'A' <= c && c <= 'Z' {
        ((c as u8) + 32) as char
    } else {
        c
    }
}

/// Whether the characters of `chars` from `from` on spell `word`, ignoring
/// the case of ASCII letters.
fn tail_matches(chars: &Vec<char>, from: usize, word: &Vec<char>) -> (same: bool)
    requires
        from <= chars.len(),
    ensures
        same == (lowercase(chars@.skip(from as int)) == word@),
{
    let n = chars.len() - from;
    if n != word.len() {
        return false;
    }
    let ghost tail = chars@.skip(from as int);
    let mut k: usize = 0;
    while k < n
        invariant
            from <= chars.len(),
            n == chars.len() - from,
            n == word.len(),
            k <= n,
            tail == chars@.skip(from as int),
            forall|j: int| 0 <= j < k ==> ascii_lower(tail[j]) == word[j],
        decreases n - k,
    {
        if to_lower(chars[from + k]) != word[k] {
            assert(lowercase(tail)[k as int] != word@[k as int]);
            return false;
        }
        k = k + 1;
    }
    assert(lowercase(tail) =~= word@);
    true
}

/// Whether `chars` from `from` on is a supported extension.
fn tail_is_supported(chars: &Vec<char>, from: usize) -> (supported: bool)
    requires
        from <= chars.len(),
    ensures
        supported == is_supported_extension(chars@.skip(from as int)),
{
    let words: Vec<Vec<char>> = vec![
        vec!['j', 'p', 'g'],
        vec!['j', 'p', 'e', 'g'],
        vec!['p', 'n', 'g'],
        vec!['b', 'm', 'p'],
        vec!['g', 'i', 'f'],
        vec!['t', 'i', 'f', 'f'],
    ];
    assert(words.deep_view() =~~= supported_extensions());
    let ghost ext = lowercase(chars@.skip(from as int));
    let mut w: usize = 0;
    while w < words.len()
        invariant
            from <= chars.len(),
            w <= words.len(),
            words.deep_view() == supported_extensions(),
            ext == lowercase(chars@.skip(from as int)),
            forall|j: int| 0 <= j < w ==> supported_extensions()[j] != ext,
        decreases words.len() - w,
    {
        assert(words.deep_view()[w as int] == words[w as int]@);
        if tail_matches(chars, from, &words[w]) {
            assert(supported_extensions()[w as int] == ext);
            return true;
        }
        w = w + 1;
    }
    false
}

/// Whether the file at `path` is a candidate image, judged by the path's text
/// alone: its extension is, in any letter case, one of `jpg`, `jpeg`, `png`,
/// `bmp`, `gif` and `tiff`. A path without an extension is no candidate.
pub fn is_image_file(path: &str) -> (accepted: bool)
    ensures
        accepted == is_candidate(path@),
{
    let chars = chars_of(path);
    let n = chars.len();
    // Start of the file name: just behind the last separator.
    let mut start: usize = n;
    while start > 0 && chars[start - 1] != '/'
        invariant
            start <= n,
            n == chars.len(),
            forall|k: int| start <= k < n ==> chars[k] != '/',
        decreases start,
    {
        start = start - 1;
    }
    proof {
        if start > 0 {
            lemma_last_index_of_is(chars@, '/', start - 1);
        } else {
            lemma_last_index_of_none(chars@, '/');
            assert(chars@.skip(0) == chars@);
        }
        assert(file_name(chars@) == chars@.skip(start as int));
    }
    let ghost name = chars@.skip(start as int);
    // The last dot of the file name.
    let mut dot: usize = n;
    while dot > start && chars[dot - 1] != '.'
        invariant
            start <= dot <= n,
            n == chars.len(),
            forall|k: int| dot <= k < n ==> chars[k] != '.',
        decreases dot,
    {
        dot = dot - 1;
    }
    if dot - start <= 1 {
        proof {
            if dot == start {
                lemma_last_index_of_none(name, '.');
            } else {
                lemma_last_index_of_is(name, '.', 0);
            }
        }
        return false;
    }
    proof {
        lemma_last_index_of_is(name, '.', dot - 1 - start);
        assert(name.skip(dot - start) == chars@.skip(dot as int));
    }
    tail_is_supported(&chars, dot)
}

} // verus!
