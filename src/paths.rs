//! Which directory entries are images, judged by file extension.
use vstd::prelude::*;

verus! {

/// The extension of a path, as std's `Path::extension` reads it.
pub uninterp spec fn path_extension(p: Seq<char>) -> Option<Seq<char>>;

/// Relies on `std::path::Path::extension`: the extension of the path's last
/// normal component, after its last `.` unless that is the first character.
#[verifier::external_body]
fn extension_of(path: &str) -> (r: Option<String>)
    ensures
        match r {
            Some(e) => path_extension(path@) == Some(e@),
            None => path_extension(path@) is None,
        },
{
    std::path::Path::new(path).extension().and_then(|e| e.to_str()).map(|e| e.to_string())
}

/// Whether an extension is one of `jpg`, `jpeg`, `png` or `webp`, in lower
/// case.
pub open spec fn is_image_extension_spec(e: Option<Seq<char>>) -> bool {
    match e {
        Some(x) => x == seq!['j', 'p', 'g'] || x == seq!['j', 'p', 'e', 'g'] || x == seq![
            'p',
            'n',
            'g',
        ] || x == seq!['w', 'e', 'b', 'p'],
        None => false,
    }
}

/// Whether the characters of `p` from `start` to its end are `word`.
fn tail_is(p: &str, n: usize, start: usize, word: &Vec<char>) -> (r: bool)
    requires
        n == p@.len(),
        start <= n,
    ensures
        r == (p@.subrange(start as int, n as int) == word@),
{
    if n - start != word.len() {
        proof {
            assert(p@.subrange(start as int, n as int).len() != word@.len());
        }
        return false;
    }
    let mut i: usize = 0;
    while i < word.len()
        invariant
            n == p@.len(),
            start <= n,
            n - start == word@.len(),
            i <= word@.len(),
            forall|j: int| 0 <= j < i ==> p@[start + j] == word@[j],
        decreases word@.len() - i,
    {
        if p.get_char(start + i) != word[i] {
            proof {
                assert(p@.subrange(start as int, n as int)[i as int] != word@[i as int]);
            }
            return false;
        }
        i = i + 1;
    }
    proof {
        assert(p@.subrange(start as int, n as int) =~= word@);
    }
    true
}

/// Whether an extension, `None` for a path without one, marks an image:
/// `jpg`, `jpeg`, `png` or `webp`, in lower case.
pub fn is_image_extension(ext: Option<&str>) -> (r: bool)
    ensures
        r == is_image_extension_spec(
            match ext {
                Some(e) => Some(e@),
                None => None,
            },
        ),
{
    match ext {
        None => false,
        Some(e) => {
            let n = e.unicode_len();
            let jpg = vec!['j', 'p', 'g'];
            let jpeg = vec!['j', 'p', 'e', 'g'];
            let png = vec!['p', 'n', 'g'];
            let webp = vec!['w', 'e', 'b', 'p'];
            proof {
                assert(jpg@ =~= seq!['j', 'p', 'g']);
                assert(jpeg@ =~= seq!['j', 'p', 'e', 'g']);
                assert(png@ =~= seq!['p', 'n', 'g']);
                assert(webp@ =~= seq!['w', 'e', 'b', 'p']);
                assert(e@.subrange(0, n as int) =~= e@);
            }
            tail_is(e, n, 0, &jpg) || tail_is(e, n, 0, &jpeg) || tail_is(e, n, 0, &png) || tail_is(
                e,
                n,
                0,
                &webp,
            )
        },
    }
}

/// Whether `path` names an image file, by its extension (`jpg`, `jpeg`,
/// `png` or `webp`, in lower case).
pub fn is_image(path: &str) -> (r: bool)
    ensures
        r == is_image_extension_spec(path_extension(path@)),
{
    match extension_of(path) {
        Some(e) => is_image_extension(Some(e.as_str())),
        None => is_image_extension(None),
    }
}

} // verus!
