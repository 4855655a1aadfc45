use vstd::prelude::*;

verus! {

/// Index of the last `'.'` among the first `k` characters of `name`, or -1.
pub open spec fn last_dot_before(name: Seq<char>, k: int) -> int
    decreases k,
{
    if k <= 0 {
        -1
    } else if name[k - 1] == '.' {
        k - 1
    } else {
        last_dot_before(name, k - 1)
    }
}

/// The extension of a file name: what follows its last `'.'`. A name whose
/// only dot is its first character (a hidden file such as `.jpg`) has none.
pub open spec fn extension_of(name: Seq<char>) -> Option<Seq<char>> {
    let d = last_dot_before(name, name.len() as int);
    if d > 0 {
        Some(name.subrange(d + 1, name.len() as int))
    } else {
        None
    }
}

/// The recognized image and video extensions. Matching is case-sensitive:
/// only the lower-case and all-upper-case spellings are listed.
pub open spec fn is_recognized_extension(ext: Seq<char>) -> bool {
    ||| ext == "jpg"@
    ||| ext == "jpeg"@
    ||| ext == "tiff"@
    ||| ext == "JPG"@
    ||| ext == "JPEG"@
    ||| ext == "TIFF"@
    ||| ext == "mov"@
    ||| ext == "MOV"@
}

/// A file of this name is eligible for relocation.
pub open spec fn is_eligible(name: Seq<char>) -> bool {
    match extension_of(name) {
        Some(ext) => is_recognized_extension(ext),
        None => false,
    }
}

proof fn lemma_last_dot_range(name: Seq<char>, k: int)
    requires
        0 <= k <= name.len(),
    ensures
        -1 <= last_dot_before(name, k) < k,
        last_dot_before(name, k) >= 0 ==> name[last_dot_before(name, k)] == '.',
    decreases k,
{
    if k > 0 && name[k - 1] != '.' {
        lemma_last_dot_range(name, k - 1);
    }
}

/// Whether a file name carries a recognized image or video extension.
pub fn is_image_file(name: &str) -> (r: bool)
    ensures
        r == is_eligible(name@),
{
    let n = name.unicode_len();
    let mut i: usize = n;
    while i > 0 && name.get_char(i - 1) != '.'
        invariant
            i <= n,
            n == name@.len(),
            last_dot_before(name@, n as int) == last_dot_before(name@, i as int),
        decreases i,
    {
        i = i - 1;
    }
    proof {
        lemma_last_dot_range(name@, n as int);
    }
    if i <= 1 {
        return false;
    }
    let ext = String::from_str(name.substring_char(i, n));
    ext == String::from_str("jpg") || ext == String::from_str("jpeg") || ext == String::from_str(
        "tiff",
    ) || ext == String::from_str("JPG") || ext == String::from_str("JPEG") || ext
        == String::from_str("TIFF") || ext == String::from_str("mov") || ext == String::from_str(
        "MOV",
    )
}

} // verus!
