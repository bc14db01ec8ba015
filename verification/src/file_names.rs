//! Extensions of file names.

use vstd::prelude::*;
use crate::text::{chars_of, push_char, same_text};

verus! {

/// The extension that is taken where none is asked for.
pub const DEFAULT_EXTENSION: &'static str = ".json";

/// The extension of archives.
pub const ZIP: &'static str = "zip";

/// An extension with its dot in front; the empty extension stays empty.
pub open spec fn spec_dotted(extension: Seq<char>) -> Seq<char> {
    if extension.len() == 0 {
        extension
    } else {
        seq!['.'] + extension
    }
}

/// Puts the dot in front of an extension, unless it is empty.
pub fn dotted(extension: &str) -> (with_dot: String)
    ensures
        with_dot@ == spec_dotted(extension@),
{
    if extension.unicode_len() == 0 {
        String::new()
    } else {
        let mut with_dot = String::new();
        push_char(&mut with_dot, '.');
        assert(with_dot@ =~= seq!['.']);
        with_dot.concat(extension)
    }
}

/// The extension for a file that has no name yet: `.json` where none is
/// asked for, else the one asked for, with one dot in front.
pub open spec fn spec_chosen_extension(ext: Seq<char>) -> Seq<char> {
    if ext.len() == 0 {
        DEFAULT_EXTENSION@
    } else if ext[0] == '.' {
        ext
    } else {
        seq!['.'] + ext
    }
}

/// Chooses the extension for a file that has no name yet.
pub fn chosen_extension(ext: &str) -> (extension: String)
    ensures
        extension@ == spec_chosen_extension(ext@),
{
    let chars = chars_of(ext);
    if chars.len() == 0 {
        DEFAULT_EXTENSION.to_owned()
    } else if chars[0] == '.' {
        ext.to_owned()
    } else {
        dotted(ext)
    }
}

/// Tells whether an extension, given without its dot, is that of an
/// archive.
pub fn is_zip(extension: &str) -> (zip: bool)
    ensures
        zip == (extension@ == ZIP@),
{
    same_text(extension, ZIP)
}

} // verus!
