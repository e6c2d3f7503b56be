//! Where things are stored: paths below the output root for corrected
//! copies and scaled variants, and the names of archive entries.

use vstd::prelude::*;
use crate::names::{
    extension, file_name, has_extension, last_index_of, lemma_last_index_of_is_last,
    lemma_last_index_of_joined_texts,
};
use crate::text::{
    append_chars, chars_of, decimal, decimal_chars, lemma_decimal_injective,
    lemma_decimal_is_digits, string_of,
};

verus! {

/// A directory's path and a name below it, joined by `/`. The empty path
/// stands for the place that relative paths start from and adds nothing.
pub open spec fn joined(directory: Seq<char>, name: Seq<char>) -> Seq<char> {
    if directory.len() == 0 {
        name
    } else {
        directory + seq!['/'] + name
    }
}

/// Where the corrected copy of a source image is stored: below the output
/// root, at the path that the source has below the input root.
pub open spec fn corrected_path_spec(output_root: Seq<char>, asset: Seq<char>) -> Seq<char> {
    joined(output_root, asset)
}

/// Where the variant of one width of a source image is stored: below a
/// directory of the output root that is named by the width.
pub open spec fn variant_path_spec(output_root: Seq<char>, width: u32, asset: Seq<char>) -> Seq<
    char,
> {
    joined(joined(output_root, decimal(width as nat)), asset)
}

/// The name of the archive entry for a path below `root`: what follows the
/// root and the `/` after it. The root itself has the empty name. A path
/// that does not lie below the root has none.
pub open spec fn entry_name_spec(root: Seq<char>, path: Seq<char>) -> Option<Seq<char>> {
    if root.len() == 0 {
        Some(path)
    } else if path == root {
        Some(Seq::<char>::empty())
    } else if path.len() > root.len() && path.take(root.len() as int) == root {
        if root.last() == '/' {
            Some(path.skip(root.len() as int))
        } else if path[root.len() as int] == '/' {
            Some(path.skip(root.len() as int + 1))
        } else {
            None
        }
    } else {
        None
    }
}

/// A path keeps its file name and its extension when it is put below a
/// directory.
pub proof fn lemma_joined_keeps_file_name(directory: Seq<char>, path: Seq<char>)
    ensures
        file_name(joined(directory, path)) == file_name(path),
        extension(joined(directory, path)) == extension(path),
{
    if directory.len() > 0 {
        let head = directory + seq!['/'];
        assert(joined(directory, path) =~= head + path);
        lemma_last_index_of_joined_texts(head, path, '/');
        lemma_last_index_of_joined_texts(head, path, '.');
        lemma_last_index_of_is_last(head, '.');
        lemma_last_index_of_is_last(path, '/');
        lemma_last_index_of_is_last(path, '.');
        assert(last_index_of(head, '/') == head.len() - 1);
        let whole = head + path;
        assert(file_name(whole) =~= file_name(path));
        if has_extension(path) {
            assert(whole.skip(last_index_of(whole, '.') + 1) =~= path.skip(
                last_index_of(path, '.') + 1,
            ));
        }
    }
}

/// Everything that is stored for an image has the image's file name: the
/// corrected copy and every variant.
pub proof fn lemma_targets_keep_the_file_name(output_root: Seq<char>, width: u32, asset: Seq<char>)
    ensures
        file_name(corrected_path_spec(output_root, asset)) == file_name(asset),
        file_name(variant_path_spec(output_root, width, asset)) == file_name(asset),
        extension(corrected_path_spec(output_root, asset)) == extension(asset),
        extension(variant_path_spec(output_root, width, asset)) == extension(asset),
{
    lemma_joined_keeps_file_name(output_root, asset);
    lemma_joined_keeps_file_name(joined(output_root, decimal(width as nat)), asset);
}

/// No two variants share a path: below one output root, the path of a
/// variant tells its width and its source image.
pub proof fn lemma_variant_paths_distinct(
    output_root: Seq<char>,
    width: u32,
    asset: Seq<char>,
    other_width: u32,
    other_asset: Seq<char>,
)
    requires
        variant_path_spec(output_root, width, asset) == variant_path_spec(
            output_root,
            other_width,
            other_asset,
        ),
    ensures
        width == other_width,
        asset == other_asset,
{
    let digits = decimal(width as nat);
    let other_digits = decimal(other_width as nat);
    lemma_decimal_is_digits(width as nat);
    lemma_decimal_is_digits(other_width as nat);
    let prefix = if output_root.len() == 0 {
        Seq::<char>::empty()
    } else {
        output_root + seq!['/']
    };
    let tail = digits + seq!['/'] + asset;
    let other_tail = other_digits + seq!['/'] + other_asset;
    let path = variant_path_spec(output_root, width, asset);
    let other_path = variant_path_spec(output_root, other_width, other_asset);
    assert(path =~= prefix + tail);
    assert(other_path =~= prefix + other_tail);
    assert(tail =~= other_tail) by {
        assert((prefix + tail).skip(prefix.len() as int) =~= tail);
        assert((prefix + other_tail).skip(prefix.len() as int) =~= other_tail);
    }
    if digits.len() < other_digits.len() {
        assert(tail[digits.len() as int] == '/');
        assert(other_tail[digits.len() as int] == other_digits[digits.len() as int]);
        assert(false);
    }
    if other_digits.len() < digits.len() {
        assert(other_tail[other_digits.len() as int] == '/');
        assert(tail[other_digits.len() as int] == digits[other_digits.len() as int]);
        assert(false);
    }
    assert(digits =~= tail.take(digits.len() as int));
    assert(other_digits =~= other_tail.take(digits.len() as int));
    lemma_decimal_injective(width as nat, other_width as nat);
    assert(asset =~= tail.skip(digits.len() as int + 1));
    assert(other_asset =~= other_tail.skip(digits.len() as int + 1));
}

/// The corrected copy of an image shares its path with none of the image's
/// variants.
pub proof fn lemma_corrected_path_is_no_variant(
    output_root: Seq<char>,
    width: u32,
    asset: Seq<char>,
)
    ensures
        corrected_path_spec(output_root, asset) != variant_path_spec(output_root, width, asset),
{
    lemma_decimal_is_digits(width as nat);
    assert(corrected_path_spec(output_root, asset).len() < variant_path_spec(
        output_root,
        width,
        asset,
    ).len());
}

/// Joins a directory's path and a name below it, as texts.
pub fn join_chars(directory: &Vec<char>, name: &Vec<char>) -> (path: Vec<char>)
    ensures
        path@ == joined(directory@, name@),
{
    let mut path: Vec<char> = Vec::new();
    if directory.len() > 0 {
        append_chars(&mut path, directory);
        path.push('/');
    }
    append_chars(&mut path, name);
    proof {
        if directory@.len() > 0 {
            assert(path@ =~= directory@ + seq!['/'] + name@);
        } else {
            assert(path@ =~= name@);
        }
    }
    path
}

/// Joins a directory's path and a name below it.
pub fn join(directory: &str, name: &str) -> (path: String)
    ensures
        path@ == joined(directory@, name@),
{
    let path = join_chars(&chars_of(directory), &chars_of(name));
    string_of(&path)
}

/// The path of the corrected copy of a source image.
pub fn corrected_path(output_root: &str, asset: &str) -> (path: String)
    ensures
        path@ == corrected_path_spec(output_root@, asset@),
{
    join(output_root, asset)
}

/// The path of the variant of one width of a source image.
pub fn variant_path(output_root: &str, width: u32, asset: &str) -> (path: String)
    ensures
        path@ == variant_path_spec(output_root@, width, asset@),
{
    let directory = join_chars(&chars_of(output_root), &decimal_chars(width));
    let path = join_chars(&directory, &chars_of(asset));
    string_of(&path)
}

/// The name of the archive entry for a path below `root`.
pub fn entry_name(root: &str, path: &str) -> (name: Option<String>)
    ensures
        name matches Some(n) ==> entry_name_spec(root@, path@) == Some(n@),
        name is None ==> entry_name_spec(root@, path@) is None,
{
    let root_chars = chars_of(root);
    let path_chars = chars_of(path);
    let root_len = root_chars.len();
    let path_len = path_chars.len();
    if root_len == 0 {
        return Some(string_of(&path_chars));
    }
    if path_len < root_len {
        assert(path@ != root@);
        return None;
    }
    let mut i: usize = 0;
    while i < root_len
        invariant
            0 < root_len <= path_len,
            root_chars@ == root@,
            path_chars@ == path@,
            root_len == root_chars@.len(),
            path_len == path_chars@.len(),
            i <= root_len,
            forall|j: int| 0 <= j < i ==> path_chars@[j] == root_chars@[j],
        decreases root_len - i,
    {
        if path_chars[i] != root_chars[i] {
            assert(path_chars@.take(root_len as int)[i as int] != root_chars@[i as int]);
            assert(path_chars@[i as int] != root_chars@[i as int]);
            return None;
        }
        i = i + 1;
    }
    assert(path_chars@.take(root_len as int) =~= root_chars@);
    if path_len == root_len {
        assert(path_chars@ =~= root_chars@);
        return Some(String::new());
    }
    let start: usize = if root_chars[root_len - 1] == '/' {
        root_len
    } else if path_chars[root_len] == '/' {
        root_len + 1
    } else {
        return None;
    };
    let mut rest: Vec<char> = Vec::new();
    let mut k: usize = start;
    while k < path_len
        invariant
            start <= k <= path_len,
            path_len == path_chars@.len(),
            rest@ == path_chars@.subrange(start as int, k as int),
        decreases path_len - k,
    {
        rest.push(path_chars[k]);
        assert(path_chars@.subrange(start as int, k as int).push(path_chars@[k as int])
            =~= path_chars@.subrange(start as int, k + 1));
        k = k + 1;
    }
    assert(path_chars@.subrange(start as int, path_len as int) =~= path_chars@.skip(start as int));
    Some(string_of(&rest))
}

} // verus!
