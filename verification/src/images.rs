//! Telling image files from other files by the extension of their name.

use image::ImageFormat;
use vstd::prelude::*;
use vstd::string::StrSliceExecFns;

verus! {

#[verifier::external_type_specification]
#[verifier::external_body]
pub struct ExImageFormat(image::ImageFormat);

/// The format that the `image` crate knows the given extension by, without
/// regard to ASCII case; none for an extension that it does not know.
pub uninterp spec fn extension_format(extension: Seq<char>) -> Option<ImageFormat>;

/// Whether the `image` crate can decode images of the given format.
pub uninterp spec fn readable_format(format: ImageFormat) -> bool;

/// Calls `ImageFormat::from_extension`, which looks the extension up in the
/// crate's table of formats. The result is a function of the extension
/// alone, named [`extension_format`].
#[verifier::external_body]
fn format_of(extension: &str) -> (format: Option<ImageFormat>)
    ensures
        format == extension_format(extension@),
{
    ImageFormat::from_extension(extension)
}

/// Calls `ImageFormat::can_read`, which says whether the crate has a decoder
/// for the format. The result is a function of the format alone, named
/// [`readable_format`].
#[verifier::external_body]
fn can_read(format: &ImageFormat) -> (readable: bool)
    ensures
        readable == readable_format(*format),
{
    format.can_read()
}

/// The index of the last occurrence of `c` in `s`, or -1 where there is
/// none.
pub open spec fn last_index_of(s: Seq<char>, c: char) -> int
    decreases s.len(),
{
    if s.len() == 0 {
        -1
    } else if s.last() == c {
        s.len() - 1
    } else {
        last_index_of(s.drop_last(), c)
    }
}

/// The extension of a file name: what follows its last dot. A name without
/// a dot has none, and neither has a name whose only dot is its first
/// character.
pub open spec fn extension_of(name: Seq<char>) -> Option<Seq<char>> {
    let dot = last_index_of(name, '.');
    if dot <= 0 {
        None
    } else {
        Some(name.skip(dot + 1))
    }
}

/// Whether a file of the given name is an image that can be shown, judged by
/// its extension.
pub open spec fn is_image_name(name: Seq<char>) -> bool {
    match extension_of(name) {
        Some(extension) => match extension_format(extension) {
            Some(format) => readable_format(format),
            None => false,
        },
        None => false,
    }
}

/// The last occurrence of `c` is an occurrence, and none follows it.
pub proof fn lemma_last_index_of(s: Seq<char>, c: char)
    ensures
        -1 <= last_index_of(s, c) < s.len(),
        last_index_of(s, c) >= 0 ==> s[last_index_of(s, c)] == c,
        forall|k: int| last_index_of(s, c) < k < s.len() ==> s[k] != c,
    decreases s.len(),
{
    if s.len() > 0 && s.last() != c {
        lemma_last_index_of(s.drop_last(), c);
        assert forall|k: int| last_index_of(s, c) < k < s.len() implies s[k] != c by {
            if k < s.len() - 1 {
                assert(s.drop_last()[k] == s[k]);
            }
        }
    }
}

/// The extension of a file name, if it has one.
pub fn extension(name: &str) -> (found: Option<&str>)
    ensures
        match found {
            Some(extension) => extension_of(name@) == Some(extension@),
            None => extension_of(name@) is None,
        },
{
    let count = name.unicode_len();
    let mut dot: Option<usize> = None;
    let mut index: usize = 0;
    for c in it: name.chars()
        invariant
            it.seq() == name@,
            count == name@.len(),
            index == it.index(),
            index <= count,
            match dot {
                Some(at) => at == last_index_of(name@.take(index as int), '.'),
                None => last_index_of(name@.take(index as int), '.') == -1,
            },
    {
        proof {
            assert(name@.take(index + 1).drop_last() == name@.take(index as int));
            assert(name@.take(index + 1).last() == c);
            lemma_last_index_of(name@.take(index as int), '.');
        }
        if c == '.' {
            dot = Some(index);
        }
        index += 1;
    }
    proof {
        assert(name@.take(name@.len() as int) == name@);
        lemma_last_index_of(name@, '.');
    }
    match dot {
        Some(at) if at > 0 => Some(name.substring_char(at + 1, count)),
        _ => None,
    }
}

/// Whether a file of the given name is an image that can be shown.
pub fn is_image(name: &str) -> (shown: bool)
    ensures
        shown == is_image_name(name@),
{
    match extension(name) {
        Some(extension) => match format_of(extension) {
            Some(format) => can_read(&format),
            None => false,
        },
        None => false,
    }
}

/// The indices at which `flags` holds `true`, in increasing order.
pub open spec fn selected(flags: Seq<bool>) -> Seq<usize>
    decreases flags.len(),
{
    if flags.len() == 0 {
        Seq::empty()
    } else if flags.last() {
        selected(flags.drop_last()).push((flags.len() - 1) as usize)
    } else {
        selected(flags.drop_last())
    }
}

/// The indices at which `flags` holds `true`, in increasing order.
pub fn select(flags: &Vec<bool>) -> (indices: Vec<usize>)
    ensures
        indices@ == selected(flags@),
{
    let mut indices: Vec<usize> = Vec::new();
    let mut index: usize = 0;
    while index < flags.len()
        invariant
            index <= flags@.len(),
            indices@ == selected(flags@.take(index as int)),
        decreases flags@.len() - index,
    {
        proof {
            assert(flags@.take(index + 1).drop_last() == flags@.take(index as int));
        }
        if flags[index] {
            indices.push(index);
        }
        index += 1;
    }
    proof {
        assert(flags@.take(flags@.len() as int) == flags@);
    }
    indices
}

/// The indices of the names that are names of images, in increasing order:
/// the images keep the order of the files.
pub fn select_images(names: &Vec<String>) -> (indices: Vec<usize>)
    ensures
        indices@ == selected(names@.map_values(|name: String| is_image_name(name@))),
{
    let mut flags: Vec<bool> = Vec::new();
    let mut index: usize = 0;
    while index < names.len()
        invariant
            index <= names@.len(),
            flags@ == names@.take(index as int).map_values(|name: String| is_image_name(name@)),
        decreases names@.len() - index,
    {
        flags.push(is_image(names[index].as_str()));
        proof {
            assert(flags@ =~= names@.take(index + 1).map_values(
                |name: String| is_image_name(name@),
            ));
        }
        index += 1;
    }
    proof {
        assert(names@.take(names@.len() as int) == names@);
    }
    select(&flags)
}

} // verus!
