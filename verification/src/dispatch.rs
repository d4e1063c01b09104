//! Extension-based dispatch: recognize the language of a path by its
//! extension (`html`, `css`, `js`, `ts`, ASCII-case-insensitively) and hand
//! the text to the matching engine.

use vstd::prelude::*;
use crate::css::css_spec;
use crate::css::format_css;
use crate::html::format_html;
use crate::html::html_spec;
use crate::jsts::format_js_ts;
use crate::jsts::js_spec;

verus! {

/// The languages the formatter recognizes.
#[derive(Clone, Copy, Debug, PartialEq, Eq, Structural)]
pub enum FileType {
    Html,
    Css,
    Js,
    Ts,
}

/// Rejections of the dispatching layer: a path without an extension, or
/// with one that names no supported language.
#[derive(Clone, Copy, Debug, PartialEq, Eq, Structural)]
pub enum FormatError {
    MissingExtension,
    UnsupportedExtension,
}

/// The characters after the last occurrence of `sep` (all of `s` when
/// `sep` does not occur).
pub open spec fn after_last(s: Seq<char>, sep: char) -> Seq<char>
    decreases s.len(),
{
    if s.len() == 0 {
        s
    } else if s.last() == sep {
        Seq::empty()
    } else {
        after_last(s.drop_last(), sep).push(s.last())
    }
}

/// The characters after the last occurrence of `sep`, or `None` when `sep`
/// does not occur.
pub open spec fn after_last_opt(s: Seq<char>, sep: char) -> Option<Seq<char>>
    decreases s.len(),
{
    if s.len() == 0 {
        None
    } else if s.last() == sep {
        Some(Seq::empty())
    } else {
        match after_last_opt(s.drop_last(), sep) {
            Some(t) => Some(t.push(s.last())),
            None => None,
        }
    }
}

/// The extension of a path: the text after the last `.` of the last
/// `/`-separated component, none when that component is empty or its only
/// dot is a leading one.
pub open spec fn ext_of(p: Seq<char>) -> Option<Seq<char>> {
    let name = after_last(p, '/');
    if name.len() == 0 {
        None
    } else {
        after_last_opt(name.skip(1), '.')
    }
}

/// `c` is the lower- or upper-case form `lo` / `up`.
pub open spec fn is_char_ci(c: char, lo: char, up: char) -> bool {
    c == lo || c == up
}

/// `e` spells `html`, ASCII-case-insensitively.
pub open spec fn ext_is_html(e: Seq<char>) -> bool {
    e.len() == 4 && is_char_ci(e[0], 'h', 'H') && is_char_ci(e[1], 't', 'T') && is_char_ci(
        e[2],
        'm',
        'M',
    ) && is_char_ci(e[3], 'l', 'L')
}

/// `e` spells `css`, ASCII-case-insensitively.
pub open spec fn ext_is_css(e: Seq<char>) -> bool {
    e.len() == 3 && is_char_ci(e[0], 'c', 'C') && is_char_ci(e[1], 's', 'S') && is_char_ci(
        e[2],
        's',
        'S',
    )
}

/// `e` spells `js`, ASCII-case-insensitively.
pub open spec fn ext_is_js(e: Seq<char>) -> bool {
    e.len() == 2 && is_char_ci(e[0], 'j', 'J') && is_char_ci(e[1], 's', 'S')
}

/// `e` spells `ts`, ASCII-case-insensitively.
pub open spec fn ext_is_ts(e: Seq<char>) -> bool {
    e.len() == 2 && is_char_ci(e[0], 't', 'T') && is_char_ci(e[1], 's', 'S')
}

/// The language of a path, or the error naming why none is recognized:
/// `MissingExtension` exactly when the path has no extension, and
/// `UnsupportedExtension` exactly when it has one naming no supported
/// language.
pub open spec fn file_type_spec(p: Seq<char>) -> Result<FileType, FormatError> {
    match ext_of(p) {
        None => Err(FormatError::MissingExtension),
        Some(e) => if ext_is_html(e) {
            Ok(FileType::Html)
        } else if ext_is_css(e) {
            Ok(FileType::Css)
        } else if ext_is_js(e) {
            Ok(FileType::Js)
        } else if ext_is_ts(e) {
            Ok(FileType::Ts)
        } else {
            Err(FormatError::UnsupportedExtension)
        },
    }
}

/// Recognize the language of `file_path` by its extension, exactly as
/// `file_type_spec` describes.
pub fn get_file_type(file_path: &Vec<char>) -> (r: Result<FileType, FormatError>)
    ensures
        r == file_type_spec(file_path@),
{
    let mut name: Vec<char> = Vec::new();
    let mut i: usize = 0;
    proof {
        assert(file_path@.take(0) =~= Seq::<char>::empty());
    }
    while i < file_path.len()
        invariant
            i <= file_path@.len(),
            name@ == after_last(file_path@.take(i as int), '/'),
        decreases file_path@.len() - i,
    {
        let c = file_path[i];
        proof {
            let pre = file_path@.take(i as int + 1);
            assert(pre.last() == file_path@[i as int]);
            assert(pre.drop_last() =~= file_path@.take(i as int));
        }
        if c == '/' {
            name = Vec::new();
            proof {
                assert(name@ =~= Seq::<char>::empty());
            }
        } else {
            name.push(c);
        }
        i = i + 1;
    }
    proof {
        assert(file_path@.take(file_path@.len() as int) =~= file_path@);
    }
    if name.len() == 0 {
        return Err(FormatError::MissingExtension);
    }
    let ghost rest = name@.skip(1);
    let mut have: bool = false;
    let mut ext: Vec<char> = Vec::new();
    let mut j: usize = 1;
    proof {
        assert(rest.take(0) =~= Seq::<char>::empty());
    }
    while j < name.len()
        invariant
            1 <= j <= name@.len(),
            rest == name@.skip(1),
            have ==> after_last_opt(rest.take(j as int - 1), '.') == Some(ext@),
            !have ==> after_last_opt(rest.take(j as int - 1), '.') is None,
        decreases name@.len() - j,
    {
        let c = name[j];
        proof {
            let pre = rest.take(j as int);
            assert(pre.last() == rest[j as int - 1]);
            assert(rest[j as int - 1] == name@[j as int]);
            assert(pre.drop_last() =~= rest.take(j as int - 1));
        }
        if c == '.' {
            have = true;
            ext = Vec::new();
            proof {
                assert(ext@ =~= Seq::<char>::empty());
            }
        } else if have {
            ext.push(c);
        }
        j = j + 1;
    }
    proof {
        assert(rest.take(name@.len() as int - 1) =~= rest);
    }
    if !have {
        return Err(FormatError::MissingExtension);
    }
    let e = &ext;
    let is_html = e.len() == 4 && (e[0] == 'h' || e[0] == 'H') && (e[1] == 't' || e[1] == 'T') && (
    e[2] == 'm' || e[2] == 'M') && (e[3] == 'l' || e[3] == 'L');
    let is_css = e.len() == 3 && (e[0] == 'c' || e[0] == 'C') && (e[1] == 's' || e[1] == 'S') && (
    e[2] == 's' || e[2] == 'S');
    let is_js = e.len() == 2 && (e[0] == 'j' || e[0] == 'J') && (e[1] == 's' || e[1] == 'S');
    let is_ts = e.len() == 2 && (e[0] == 't' || e[0] == 'T') && (e[1] == 's' || e[1] == 'S');
    if is_html {
        Ok(FileType::Html)
    } else if is_css {
        Ok(FileType::Css)
    } else if is_js {
        Ok(FileType::Js)
    } else if is_ts {
        Ok(FileType::Ts)
    } else {
        Err(FormatError::UnsupportedExtension)
    }
}

/// What the formatter produces for each language.
pub open spec fn format_code_spec(s: Seq<char>, file_type: FileType, indent: nat, max: nat) -> Seq<
    char,
> {
    match file_type {
        FileType::Html => html_spec(s, indent, max),
        FileType::Css => css_spec(s, indent, max),
        FileType::Js => js_spec(s, indent, max),
        FileType::Ts => js_spec(s, indent, max),
    }
}

/// Format `content` as the given language; `js` and `ts` share one engine.
/// The result is exactly `format_code_spec` and always ends in a newline.
pub fn format_code(content: &Vec<char>, file_type: FileType, indent: u8, line_length: usize) -> (r:
    Vec<char>)
    ensures
        r@ == format_code_spec(content@, file_type, indent as nat, line_length as nat),
        r@.len() > 0 && r@.last() == '\n',
{
    match file_type {
        FileType::Html => format_html(content, indent, line_length),
        FileType::Css => format_css(content, indent, line_length),
        FileType::Js => format_js_ts(content, indent, line_length),
        FileType::Ts => format_js_ts(content, indent, line_length),
    }
}

} // verus!
