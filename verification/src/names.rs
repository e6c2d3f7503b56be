//! What a directory entry's name says about it: its stem and extension,
//! whether the extension is one of the supported image formats, whether the
//! name marks a generated derivative, and so how the entry is classified.

use vstd::prelude::*;
use crate::text::{
    chars_of, decimal, decimal_chars, is_alphanumeric, is_alphanumeric_char, is_digit,
    is_digit_char, lowered, matches_lowered, same_chars,
};

verus! {

/// Where `c` stands last in `s`; -1 where it does not stand at all.
pub open spec fn last_index_of(s: Seq<char>, c: char) -> int
    decreases s.len(),
{
    if s.len() == 0 {
        -1
    } else if s.last() == c {
        s.len() - 1
    } else {
        last_index_of(s.drop_last(), c)
    }
}

/// `last_index_of` is the place of the last `c`: `c` stands there and nowhere
/// after it, and where the result is -1, `c` stands nowhere in `s`.
pub proof fn lemma_last_index_of_is_last(s: Seq<char>, c: char)
    ensures
        -1 <= last_index_of(s, c) < s.len(),
        last_index_of(s, c) >= 0 ==> s[last_index_of(s, c)] == c,
        forall|j: int| last_index_of(s, c) < j < s.len() ==> s[j] != c,
    decreases s.len(),
{
    if s.len() > 0 && s.last() != c {
        lemma_last_index_of_is_last(s.drop_last(), c);
        assert forall|j: int| last_index_of(s, c) < j < s.len() implies s[j] != c by {
            if j < s.len() - 1 {
                assert(s.drop_last()[j] == s[j]);
            }
        }
        if last_index_of(s, c) >= 0 {
            assert(s.drop_last()[last_index_of(s, c)] == s[last_index_of(s, c)]);
        }
    }
}

/// The last `c` of two texts put together is the last `c` of the second,
/// and where that holds none, the last `c` of the first.
pub proof fn lemma_last_index_of_joined_texts(s: Seq<char>, t: Seq<char>, c: char)
    ensures
        last_index_of(s + t, c) == if last_index_of(t, c) >= 0 {
            s.len() + last_index_of(t, c)
        } else {
            last_index_of(s, c)
        },
    decreases t.len(),
{
    if t.len() == 0 {
        assert(s + t =~= s);
    } else {
        assert((s + t).last() == t.last());
        assert((s + t).drop_last() =~= s + t.drop_last());
        if t.last() != c {
            lemma_last_index_of_joined_texts(s, t.drop_last(), c);
        }
    }
}

/// Where the last component of a path starts; components are separated by `/`.
pub open spec fn file_name_start(path: Seq<char>) -> int {
    last_index_of(path, '/') + 1
}

/// The last component of a path.
pub open spec fn file_name(path: Seq<char>) -> Seq<char> {
    path.skip(file_name_start(path))
}

/// Whether the file name of a path has a dot that ends its stem: its last
/// dot, unless that stands first in the name.
pub open spec fn has_extension(path: Seq<char>) -> bool {
    last_index_of(path, '.') > file_name_start(path)
}

/// The part of a path's file name before its last dot. A name without a
/// dot, or whose only dot comes first, is its own stem.
pub open spec fn stem(path: Seq<char>) -> Seq<char> {
    if has_extension(path) {
        path.subrange(file_name_start(path), last_index_of(path, '.'))
    } else {
        file_name(path)
    }
}

/// The part of a path's file name after its last dot; none for a name
/// without a dot, or whose only dot comes first.
pub open spec fn extension(path: Seq<char>) -> Option<Seq<char>> {
    if has_extension(path) {
        Some(path.skip(last_index_of(path, '.') + 1))
    } else {
        None
    }
}

/// The supported image formats by extension, whatever the case of its
/// ASCII letters: jpg, jpeg, png, gif, webp.
pub open spec fn supported_extension(ext: Seq<char>) -> bool {
    ||| lowered(ext) == seq!['j', 'p', 'g']
    ||| lowered(ext) == seq!['j', 'p', 'e', 'g']
    ||| lowered(ext) == seq!['p', 'n', 'g']
    ||| lowered(ext) == seq!['g', 'i', 'f']
    ||| lowered(ext) == seq!['w', 'e', 'b', 'p']
}

/// `s` without the characters at its start that are no ASCII letter or digit.
pub open spec fn trim_start(s: Seq<char>) -> Seq<char>
    decreases s.len(),
{
    if s.len() > 0 && !is_alphanumeric(s.first()) {
        trim_start(s.drop_first())
    } else {
        s
    }
}

/// `s` without the characters at its end that are no ASCII letter or digit.
pub open spec fn trim_end(s: Seq<char>) -> Seq<char>
    decreases s.len(),
{
    if s.len() > 0 && !is_alphanumeric(s.last()) {
        trim_end(s.drop_last())
    } else {
        s
    }
}

/// A stem cut down to where it starts and ends with an ASCII letter or digit.
pub open spec fn normalized(s: Seq<char>) -> Seq<char> {
    trim_end(trim_start(s))
}

/// Whether `s` ends with a hyphen followed by exactly `digits` ASCII digits.
pub open spec fn ends_with_hyphen_and_digits(s: Seq<char>, digits: int) -> bool {
    &&& s.len() > digits
    &&& s[s.len() - digits - 1] == '-'
    &&& forall|i: int| s.len() - digits <= i < s.len() ==> is_digit(#[trigger] s[i])
}

/// Whether a normalized stem ends like a generated derivative's: with a
/// hyphen and two to four digits. A photo named for a year, such as
/// `event-2024`, ends so too and is taken for a derivative.
pub open spec fn has_width_suffix(s: Seq<char>) -> bool {
    ||| ends_with_hyphen_and_digits(s, 2)
    ||| ends_with_hyphen_and_digits(s, 3)
    ||| ends_with_hyphen_and_digits(s, 4)
}

/// Whether a directory of this name holds generated output: its name is the
/// decimal form of a derivative width, or a reserved name.
pub open spec fn is_generated_directory(
    name: Seq<char>,
    widths: Seq<u32>,
    reserved: Seq<Seq<char>>,
) -> bool {
    ||| exists|i: int| 0 <= i < widths.len() && name == decimal(#[trigger] widths[i] as nat)
    ||| exists|i: int| 0 <= i < reserved.len() && name == #[trigger] reserved[i]
}

/// What discovery does with a directory entry.
#[derive(PartialEq, Eq, Structural, Debug, Clone, Copy)]
pub enum Classification {
    /// A directory to walk into.
    Directory,
    /// A source image.
    SourceCandidate,
    /// Passed over: generated output, a derivative, or no supported image.
    Ignore,
}

/// How an entry is classified.
pub open spec fn classify_spec(
    name: Seq<char>,
    is_directory: bool,
    widths: Seq<u32>,
    reserved: Seq<Seq<char>>,
) -> Classification {
    if is_directory {
        if is_generated_directory(name, widths, reserved) {
            Classification::Ignore
        } else {
            Classification::Directory
        }
    } else if has_width_suffix(normalized(stem(name))) {
        Classification::Ignore
    } else if extension(name) matches Some(ext) && supported_extension(ext) {
        Classification::SourceCandidate
    } else {
        Classification::Ignore
    }
}

/// What makes a source image: an entry is a source candidate exactly if it
/// is no directory, its stem does not end like a derivative's, and its
/// extension is one of the supported formats. A file of another extension,
/// or of none, is never one.
pub proof fn lemma_source_candidates_are_supported_images(
    name: Seq<char>,
    is_directory: bool,
    widths: Seq<u32>,
    reserved: Seq<Seq<char>>,
)
    ensures
        classify_spec(name, is_directory, widths, reserved) == Classification::SourceCandidate
            <==> !is_directory && !has_width_suffix(normalized(stem(name))) && extension(name)
            is Some && supported_extension(extension(name)->0),
        classify_spec(name, is_directory, widths, reserved) == Classification::Directory
            <==> is_directory && !is_generated_directory(name, widths, reserved),
{
}

/// The names by which generated output is recognised.
pub struct ClassifierConfig {
    /// The derivative widths: a directory named as one of them is skipped.
    pub widths: Vec<u32>,
    /// Further directory names that are skipped, such as the output root's.
    pub reserved: Vec<String>,
}

impl ClassifierConfig {
    /// The reserved names as texts.
    pub open spec fn reserved_names(&self) -> Seq<Seq<char>> {
        Seq::new(self.reserved@.len(), |i: int| self.reserved@[i]@)
    }
}

/// Where the parts of a path's file name lie among its characters.
pub struct NameParts {
    /// Where the file name starts.
    pub name_start: usize,
    /// Where the stem ends: at the dot before the extension, or at the end.
    pub stem_end: usize,
    /// Whether an extension follows the stem.
    pub has_extension: bool,
}

/// Finds the stem and the extension of a path's file name.
pub fn split_name(chars: &Vec<char>) -> (parts: NameParts)
    ensures
        parts.name_start == file_name_start(chars@),
        parts.name_start <= parts.stem_end <= chars@.len(),
        parts.has_extension == has_extension(chars@),
        parts.has_extension ==> parts.stem_end == last_index_of(chars@, '.'),
        parts.has_extension ==> parts.stem_end < chars@.len(),
        !parts.has_extension ==> parts.stem_end == chars@.len(),
        chars@.subrange(parts.name_start as int, parts.stem_end as int) == stem(chars@),
        parts.has_extension ==> extension(chars@) == Some(chars@.skip(parts.stem_end + 1)),
{
    assert(chars@.take(chars@.len() as int) =~= chars@);
    let name_start: usize = match find_last(chars, chars.len(), '/') {
        Some(i) => i + 1,
        None => 0,
    };
    match find_last(chars, chars.len(), '.') {
        Some(dot) => if dot > name_start {
            NameParts { name_start, stem_end: dot, has_extension: true }
        } else {
            assert(chars@.subrange(name_start as int, chars@.len() as int) =~= chars@.skip(
                name_start as int,
            ));
            NameParts { name_start, stem_end: chars.len(), has_extension: false }
        },
        None => {
            assert(chars@.subrange(name_start as int, chars@.len() as int) =~= chars@.skip(
                name_start as int,
            ));
            NameParts { name_start, stem_end: chars.len(), has_extension: false }
        },
    }
}

/// The extension of a path's file name, if it has one.
pub fn extension_of(path: &str) -> (ext: Option<&str>)
    ensures
        ext matches Some(e) ==> extension(path@) == Some(e@),
        ext is None ==> extension(path@) is None,
{
    let chars = chars_of(path);
    let parts = split_name(&chars);
    if parts.has_extension {
        let length = chars.len();
        let ext = path.substring_char(parts.stem_end + 1, length);
        assert(ext@ =~= chars@.skip(parts.stem_end + 1));
        Some(ext)
    } else {
        None
    }
}

/// Where `c` stands last among the first `end` characters.
pub(crate) fn find_last(chars: &Vec<char>, end: usize, c: char) -> (found: Option<usize>)
    requires
        end <= chars.len(),
    ensures
        match found {
            Some(i) => i == last_index_of(chars@.take(end as int), c),
            None => last_index_of(chars@.take(end as int), c) == -1,
        },
        found matches Some(i) ==> i < end && chars@[i as int] == c,
{
    let ghost whole = chars@.take(end as int);
    assert(whole.take(end as int) =~= whole);
    let mut i: usize = end;
    while i > 0
        invariant
            i <= end <= chars.len(),
            whole == chars@.take(end as int),
            last_index_of(whole, c) == last_index_of(whole.take(i as int), c),
        decreases i,
    {
        if chars[i - 1] == c {
            return Some(i - 1);
        }
        assert(whole.take(i as int).drop_last() =~= whole.take(i - 1));
        i = i - 1;
    }
    assert(whole.take(0).len() == 0);
    None
}

/// Whether the characters from `start` to `end` end with a hyphen and
/// exactly `digits` digits.
fn suffix_at(chars: &Vec<char>, start: usize, end: usize, digits: usize) -> (b: bool)
    requires
        start <= end <= chars.len(),
        digits <= 4,
    ensures
        b == ends_with_hyphen_and_digits(chars@.subrange(start as int, end as int), digits as int),
{
    let ghost s = chars@.subrange(start as int, end as int);
    if end - start <= digits {
        return false;
    }
    if chars[end - digits - 1] != '-' {
        assert(s[s.len() - digits - 1] == chars@[end - digits - 1]);
        return false;
    }
    let mut i: usize = end - digits;
    while i < end
        invariant
            start <= end <= chars.len(),
            end - start > digits,
            end - digits <= i <= end,
            s == chars@.subrange(start as int, end as int),
            forall|j: int| s.len() - digits <= j < i - start ==> is_digit(#[trigger] s[j]),
        decreases end - i,
    {
        if !is_digit_char(chars[i]) {
            assert(s[i - start] == chars@[i as int]);
            return false;
        }
        assert(s[i - start] == chars@[i as int]);
        i = i + 1;
    }
    assert(s[s.len() - digits - 1] == chars@[end - digits - 1]);
    true
}

/// The bounds of the normalized form of the characters from `begin` to `end`.
fn normalized_bounds(chars: &Vec<char>, begin: usize, end: usize) -> (bounds: (usize, usize))
    requires
        begin <= end <= chars.len(),
    ensures
        begin <= bounds.0 <= bounds.1 <= end,
        chars@.subrange(bounds.0 as int, bounds.1 as int) == normalized(
            chars@.subrange(begin as int, end as int),
        ),
{
    let ghost whole = chars@.subrange(begin as int, end as int);
    assert(whole.skip(0) =~= whole);
    let mut start: usize = begin;
    while start < end && !is_alphanumeric_char(chars[start])
        invariant
            begin <= start <= end <= chars.len(),
            whole == chars@.subrange(begin as int, end as int),
            trim_start(whole) == trim_start(whole.skip(start - begin)),
        decreases end - start,
    {
        assert(whole.skip(start - begin).drop_first() =~= whole.skip(start - begin + 1));
        start = start + 1;
    }
    let ghost rest = whole.skip(start - begin);
    assert(trim_start(whole) == rest);
    assert(rest.take(end - start) =~= rest);
    let mut stop: usize = end;
    while stop > start && !is_alphanumeric_char(chars[stop - 1])
        invariant
            begin <= start <= stop <= end <= chars.len(),
            whole == chars@.subrange(begin as int, end as int),
            rest == whole.skip(start - begin),
            trim_end(rest) == trim_end(rest.take(stop - start)),
        decreases stop - start,
    {
        assert(rest.take(stop - start).drop_last() =~= rest.take(stop - start - 1));
        stop = stop - 1;
    }
    assert(rest.take(stop - start) =~= chars@.subrange(start as int, stop as int));
    (start, stop)
}

/// Whether a file of this extension is a supported image: jpg, jpeg, png,
/// gif or webp, in any case of the letters.
pub fn is_supported_extension(extension_str: &str) -> (supported: bool)
    ensures
        supported == supported_extension(extension_str@),
{
    let chars = chars_of(extension_str);
    assert(chars@.skip(0) =~= extension_str@);
    supported_chars(&chars, 0)
}

/// Whether the characters from `start` on are a supported extension.
pub(crate) fn supported_chars(chars: &Vec<char>, start: usize) -> (supported: bool)
    requires
        start <= chars.len(),
    ensures
        supported == supported_extension(chars@.skip(start as int)),
{
    let jpg = vec!['j', 'p', 'g'];
    let jpeg = vec!['j', 'p', 'e', 'g'];
    let png = vec!['p', 'n', 'g'];
    let gif = vec!['g', 'i', 'f'];
    let webp = vec!['w', 'e', 'b', 'p'];
    proof {
        assert(lowered(jpg@) =~= jpg@);
        assert(lowered(jpeg@) =~= jpeg@);
        assert(lowered(png@) =~= png@);
        assert(lowered(gif@) =~= gif@);
        assert(lowered(webp@) =~= webp@);
        assert(jpg@ =~= seq!['j', 'p', 'g']);
        assert(jpeg@ =~= seq!['j', 'p', 'e', 'g']);
        assert(png@ =~= seq!['p', 'n', 'g']);
        assert(gif@ =~= seq!['g', 'i', 'f']);
        assert(webp@ =~= seq!['w', 'e', 'b', 'p']);
    }
    matches_lowered(chars, start, &jpg) || matches_lowered(chars, start, &jpeg) || matches_lowered(
        chars,
        start,
        &png,
    ) || matches_lowered(chars, start, &gif) || matches_lowered(chars, start, &webp)
}

/// Whether a directory of this name holds generated output.
fn generated_directory(name: &Vec<char>, config: &ClassifierConfig) -> (generated: bool)
    ensures
        generated == is_generated_directory(name@, config.widths@, config.reserved_names()),
{
    let mut i: usize = 0;
    while i < config.widths.len()
        invariant
            i <= config.widths.len(),
            forall|j: int| 0 <= j < i ==> name@ != decimal(#[trigger] config.widths@[j] as nat),
        decreases config.widths.len() - i,
    {
        let digits = decimal_chars(config.widths[i]);
        if same_chars(name, &digits) {
            return true;
        }
        i = i + 1;
    }
    let ghost reserved = config.reserved_names();
    let mut k: usize = 0;
    while k < config.reserved.len()
        invariant
            k <= config.reserved.len(),
            reserved == config.reserved_names(),
            forall|j: int| 0 <= j < k ==> name@ != #[trigger] reserved[j],
        decreases config.reserved.len() - k,
    {
        let word = chars_of(config.reserved[k].as_str());
        if same_chars(name, &word) {
            assert(name@ == reserved[k as int]);
            return true;
        }
        assert(reserved[k as int] == config.reserved@[k as int]@);
        k = k + 1;
    }
    false
}

/// Classifies a directory entry by its name and kind. Directories that hold
/// generated output and files that look like derivatives are passed over, so
/// that a later run finds the same source images again and nothing else.
pub fn classify(name: &str, is_directory: bool, config: &ClassifierConfig) -> (class:
    Classification)
    ensures
        class == classify_spec(name@, is_directory, config.widths@, config.reserved_names()),
{
    let chars = chars_of(name);
    if is_directory {
        if generated_directory(&chars, config) {
            Classification::Ignore
        } else {
            Classification::Directory
        }
    } else {
        let parts = split_name(&chars);
        let (from, to) = normalized_bounds(&chars, parts.name_start, parts.stem_end);
        if suffix_at(&chars, from, to, 2) || suffix_at(&chars, from, to, 3) || suffix_at(
            &chars,
            from,
            to,
            4,
        ) {
            Classification::Ignore
        } else if parts.has_extension && supported_chars(&chars, parts.stem_end + 1) {
            Classification::SourceCandidate
        } else {
            Classification::Ignore
        }
    }
}

} // verus!
