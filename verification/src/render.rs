//! What the template helpers compute from their arguments, and the rules by
//! which template sources and outputs are named.

use vstd::prelude::*;
use vstd::string::*;

pub use crate::color::hex_to_rgb;
use crate::color::{alpha_byte, alpha_byte_spec, alpha_in_range, hex8, rgb_of, to_hex8};
use crate::text::{chars_of, lowercase_of, string_of};

verus! {

/// A value that the template engine hands to a helper, as far as the
/// helpers read it: a text, or something else, of which only its rendering
/// for a message is kept.
#[derive(Debug, Clone, PartialEq, Eq)]
pub enum HelperValue {
    Text(String),
    Other { rendering: String },
}

/// Why a helper refuses its arguments.
#[derive(Debug, Clone, PartialEq, Eq)]
pub enum HelperError {
    /// The text argument `key` is missing or is no text.
    MissingString { key: String },
    /// An alpha is not between 0.0 and 1.0.
    AlphaOutOfRange,
    /// A colour argument is no `#RRGGBB` colour.
    InvalidHexColor { value: String },
    /// The value given to the lowercase filter is no text.
    NotText { rendering: String },
}

/// The texts of a [`HelperError`].
pub enum HelperErrorView {
    MissingString { key: Seq<char> },
    AlphaOutOfRange,
    InvalidHexColor { value: Seq<char> },
    NotText { rendering: Seq<char> },
}

impl View for HelperError {
    type V = HelperErrorView;

    open spec fn view(&self) -> HelperErrorView {
        match self {
            HelperError::MissingString { key } => HelperErrorView::MissingString { key: key@ },
            HelperError::AlphaOutOfRange => HelperErrorView::AlphaOutOfRange,
            HelperError::InvalidHexColor { value } => HelperErrorView::InvalidHexColor {
                value: value@,
            },
            HelperError::NotText { rendering } => HelperErrorView::NotText {
                rendering: rendering@,
            },
        }
    }
}

/// How a [`HelperError`] reads.
pub open spec fn helper_message(e: HelperErrorView) -> Seq<char> {
    match e {
        HelperErrorView::MissingString { key } => "missing or invalid string arg '"@ + key + "'"@,
        HelperErrorView::AlphaOutOfRange => "alpha must be between 0.0 and 1.0"@,
        HelperErrorView::InvalidHexColor { value } => "invalid hex color: "@ + value,
        HelperErrorView::NotText { rendering } => "lowercase filter expects a string, got "@
            + rendering,
    }
}

impl HelperError {
    /// The error as a line of text.
    pub fn message(&self) -> (s: String)
        ensures
            s@ == helper_message(self@),
    {
        match self {
            HelperError::MissingString { key } => {
                let mut s = String::from_str("missing or invalid string arg '");
                s.append(key.as_str());
                s.append("'");
                s
            },
            HelperError::AlphaOutOfRange => String::from_str("alpha must be between 0.0 and 1.0"),
            HelperError::InvalidHexColor { value } => {
                let mut s = String::from_str("invalid hex color: ");
                s.append(value.as_str());
                s
            },
            HelperError::NotText { rendering } => {
                let mut s = String::from_str("lowercase filter expects a string, got ");
                s.append(rendering.as_str());
                s
            },
        }
    }
}

/// The texts of the outcome of a helper.
pub open spec fn helper_view(r: Result<String, HelperError>) -> Result<Seq<char>, HelperErrorView> {
    match r {
        Ok(s) => Ok(s@),
        Err(e) => Err(e@),
    }
}

/// What the argument `key` gives where a text is expected.
pub open spec fn expect_string_spec(arg: Option<HelperValue>, key: Seq<char>) -> Result<
    Seq<char>,
    HelperErrorView,
> {
    match arg {
        Some(HelperValue::Text(s)) => Ok(s@),
        _ => Err(HelperErrorView::MissingString { key }),
    }
}

/// Reads the argument named `key` as a text. `arg` is what the helper was
/// given under that name.
pub fn expect_string(arg: Option<&HelperValue>, key: &str) -> (r: Result<String, HelperError>)
    ensures
        helper_view(r) == expect_string_spec(
            match arg {
                Some(v) => Some(*v),
                None => None,
            },
            key@,
        ),
{
    match arg {
        Some(HelperValue::Text(s)) => Ok(s.clone()),
        _ => Err(HelperError::MissingString { key: key.to_owned() }),
    }
}

/// What the lowercase filter makes of a value.
pub open spec fn lowercase_spec(value: HelperValue) -> Result<Seq<char>, HelperErrorView> {
    match value {
        HelperValue::Text(s) => Ok(lowercase_of(s@)),
        HelperValue::Other { rendering } => Err(HelperErrorView::NotText { rendering: rendering@ }),
    }
}

/// The lowercase filter: a text in lower case. Any other value is refused.
pub fn lowercase_filter(value: &HelperValue) -> (r: Result<String, HelperError>)
    ensures
        helper_view(r) == lowercase_spec(*value),
{
    match value {
        HelperValue::Text(s) => Ok(s.as_str().to_lowercase()),
        HelperValue::Other { rendering } => Err(
            HelperError::NotText { rendering: rendering.clone() },
        ),
    }
}

/// What a helper reads from a colour and an alpha, where the alpha is given
/// by its bits as a single-precision float: the three channels of the
/// colour. An alpha that is not between 0.0 and 1.0 is refused, and then a
/// colour that is not `#` and six hexadecimal digits.
pub open spec fn channels_spec(hex: Seq<char>, alpha_bits: u32) -> Result<
    (u8, u8, u8),
    HelperErrorView,
> {
    if !alpha_in_range(alpha_bits) {
        Err(HelperErrorView::AlphaOutOfRange)
    } else {
        match rgb_of(hex) {
            Some(rgb) => Ok(rgb),
            None => Err(HelperErrorView::InvalidHexColor { value: hex }),
        }
    }
}

/// The texts of the outcome of reading a colour.
pub open spec fn channels_view(r: Result<(u8, u8, u8), HelperError>) -> Result<
    (u8, u8, u8),
    HelperErrorView,
> {
    match r {
        Ok(rgb) => Ok(rgb),
        Err(e) => Err(e@),
    }
}

/// Reads the colour and the alpha that every colour helper takes: the
/// channels of a `#RRGGBB` colour, where the alpha lies between 0.0 and
/// 1.0. `alpha_bits` are the bits of the alpha as a single-precision float
/// (`f32::to_bits`).
pub fn color_channels(hex: &str, alpha_bits: u32) -> (r: Result<(u8, u8, u8), HelperError>)
    ensures
        channels_view(r) == channels_spec(hex@, alpha_bits),
{
    if !(alpha_bits <= 0x3F80_0000 || alpha_bits == 0x8000_0000) {
        return Err(HelperError::AlphaOutOfRange);
    }
    match hex_to_rgb(hex) {
        Some(rgb) => Ok(rgb),
        None => Err(HelperError::InvalidHexColor { value: hex.to_owned() }),
    }
}

/// What a colour and an alpha compose to, where the alpha is given by its
/// bits as a single-precision float: the colour's three channels and the
/// alpha channel as `#RRGGBBAA`. An alpha that is not between 0.0 and 1.0 is
/// refused, and then a colour that is no `#RRGGBB` colour.
pub open spec fn with_alpha_spec(hex: Seq<char>, alpha_bits: u32) -> Result<
    Seq<char>,
    HelperErrorView,
> {
    match alpha_byte_spec(alpha_bits) {
        None => Err(HelperErrorView::AlphaOutOfRange),
        Some(a) => match rgb_of(hex) {
            Some((r, g, b)) => Ok(hex8(r, g, b, a)),
            None => Err(HelperErrorView::InvalidHexColor { value: hex }),
        },
    }
}

/// Composes a `#RRGGBB` colour with an alpha between 0.0 and 1.0 to
/// `#RRGGBBAA`, in upper case. `alpha_bits` are the bits of the alpha as a
/// single-precision float (`f32::to_bits`).
pub fn with_alpha_hex(hex: &str, alpha_bits: u32) -> (r: Result<String, HelperError>)
    ensures
        helper_view(r) == with_alpha_spec(hex@, alpha_bits),
{
    let a = match alpha_byte(alpha_bits) {
        Some(a) => a,
        None => {
            return Err(HelperError::AlphaOutOfRange);
        },
    };
    match hex_to_rgb(hex) {
        Some((r, g, b)) => Ok(to_hex8(r, g, b, a)),
        None => Err(HelperError::InvalidHexColor { value: hex.to_owned() }),
    }
}

/// Whether `c` is one of the characters that make a glob pattern.
pub open spec fn is_glob_char(c: char) -> bool {
    c == '*' || c == '?' || c == '[' || c == '{'
}

/// The index of the first glob character of `s`, or `s.len()` if it has none.
pub open spec fn glob_index(s: Seq<char>) -> nat
    decreases s.len(),
{
    if s.len() == 0 || is_glob_char(s[0]) {
        0
    } else {
        1 + glob_index(s.skip(1))
    }
}

/// `glob_index` is `k` exactly when no glob character stands before `k` and
/// one stands at `k`, or `k` is the end.
pub proof fn lemma_glob_index(s: Seq<char>, k: int)
    requires
        0 <= k <= s.len(),
        forall|j: int| 0 <= j < k ==> !is_glob_char(s[j]),
        k == s.len() || is_glob_char(s[k]),
    ensures
        glob_index(s) == k,
    decreases s.len(),
{
    if s.len() == 0 || is_glob_char(s[0]) {
    } else {
        lemma_glob_index(s.skip(1), k - 1);
    }
}

/// The index after the last occurrence of `c` in `s`, or zero if there is none.
pub open spec fn end_of_last(s: Seq<char>, c: char) -> nat
    decreases s.len(),
{
    if s.len() == 0 {
        0
    } else if s.last() == c {
        s.len()
    } else {
        end_of_last(s.drop_last(), c)
    }
}

/// The part of a glob pattern that names the directory to search: what
/// stands before the first glob character, up to and with its last
/// separator.
pub open spec fn glob_base_spec(pattern: Seq<char>, sep: char) -> Seq<char> {
    let before = pattern.take(glob_index(pattern) as int);
    before.take(end_of_last(before, sep) as int)
}

fn find_glob(chars: &Vec<char>) -> (i: usize)
    ensures
        i == glob_index(chars@),
        i <= chars.len(),
{
    let mut i: usize = 0;
    while i < chars.len()
        invariant
            i <= chars.len(),
            forall|j: int| 0 <= j < i ==> !is_glob_char(chars@[j]),
        decreases chars.len() - i,
    {
        let c = chars[i];
        if c == '*' || c == '?' || c == '[' || c == '{' {
            proof {
                lemma_glob_index(chars@, i as int);
            }
            return i;
        }
        i = i + 1;
    }
    proof {
        lemma_glob_index(chars@, i as int);
    }
    i
}

/// Whether `s` is a glob pattern: it holds `*`, `?`, `[` or `{`.
pub fn has_glob_chars(s: &str) -> (b: bool)
    ensures
        b == (glob_index(s@) < s@.len()),
        b == exists|i: int| 0 <= i < s@.len() && is_glob_char(s@[i]),
{
    let chars = chars_of(s);
    let i = find_glob(&chars);
    proof {
        lemma_glob_found(s@);
    }
    i < chars.len()
}

/// What `glob_index` finds is the first glob character, if there is one.
pub proof fn lemma_glob_found(s: Seq<char>)
    ensures
        glob_index(s) <= s.len(),
        forall|j: int| 0 <= j < glob_index(s) ==> !is_glob_char(s[j]),
        glob_index(s) < s.len() ==> is_glob_char(s[glob_index(s) as int]),
        glob_index(s) < s.len() <==> exists|i: int| 0 <= i < s.len() && is_glob_char(s[i]),
    decreases s.len(),
{
    if s.len() == 0 || is_glob_char(s[0]) {
    } else {
        let t = s.skip(1);
        lemma_glob_found(t);
        let k = glob_index(t) as int;
        assert forall|j: int| 0 <= j < k + 1 implies !is_glob_char(s[j]) by {
            if j > 0 {
                assert(s[j] == t[j - 1]);
            }
        }
        if k < t.len() {
            assert(s[k + 1] == t[k]);
        } else {
            if exists|i: int| 0 <= i < s.len() && is_glob_char(s[i]) {
                let i = choose|i: int| 0 <= i < s.len() && is_glob_char(s[i]);
                assert(t[i - 1] == s[i]);
            }
        }
    }
}

/// The directory part of a glob pattern, where `sep` separates the parts of
/// a path.
pub fn glob_base(pattern: &str, sep: char) -> (base: String)
    ensures
        base@ == glob_base_spec(pattern@, sep),
{
    let chars = chars_of(pattern);
    let idx = find_glob(&chars);
    let ghost before = chars@.take(idx as int);
    let mut end: usize = idx;
    proof {
        assert(before.take(idx as int) =~= before);
    }
    while end > 0 && chars[end - 1] != sep
        invariant
            end <= idx <= chars.len(),
            before == chars@.take(idx as int),
            end_of_last(before, sep) == end_of_last(before.take(end as int), sep),
        decreases end,
    {
        proof {
            let part = before.take(end as int);
            assert(part.drop_last() =~= before.take(end - 1));
        }
        end = end - 1;
    }
    proof {
        assert(before.take(idx as int) =~= before);
        let part = before.take(end as int);
        assert(end_of_last(part, sep) == end);
        assert(chars@.subrange(0, end as int) =~= before.take(end as int));
    }
    string_of(&chars, 0, end)
}

/// Whether `s` ends with `suffix`.
pub open spec fn ends_with(s: Seq<char>, suffix: Seq<char>) -> bool {
    s.len() >= suffix.len() && s.skip(s.len() - suffix.len()) == suffix
}

/// A file name without the template extension `.tera`, if it has it.
pub open spec fn strip_tera_spec(name: Seq<char>) -> Seq<char> {
    if ends_with(name, ".tera"@) {
        name.take(name.len() - ".tera"@.len())
    } else {
        name
    }
}

/// The name of the output for a template's file name: the name without its
/// `.tera` extension.
pub fn strip_tera_extension(name: &str) -> (out: String)
    ensures
        out@ == strip_tera_spec(name@),
{
    let chars = chars_of(name);
    let suffix = chars_of(".tera");
    let n = chars.len();
    let m = suffix.len();
    if n < m {
        return name.to_owned();
    }
    let from = n - m;
    let mut i: usize = 0;
    while i < m
        invariant
            chars@ == name@,
            suffix@ == ".tera"@,
            n == chars.len(),
            m == suffix.len(),
            from + m == n,
            i <= m,
            forall|j: int| 0 <= j < i ==> chars@[from + j] == suffix@[j],
        decreases m - i,
    {
        if chars[from + i] != suffix[i] {
            proof {
                let tail = name@.skip(name@.len() - ".tera"@.len());
                assert(tail[i as int] == chars@[from + i]);
                assert(".tera"@[i as int] == suffix@[i as int]);
                assert(tail != ".tera"@);
            }
            return name.to_owned();
        }
        i = i + 1;
    }
    proof {
        assert(chars@.skip(from as int) =~= suffix@);
        assert(chars@.subrange(0, from as int) =~= chars@.take(from as int));
    }
    string_of(&chars, 0, from)
}

/// Where the templates come from.
#[derive(Debug, Clone, PartialEq, Eq)]
pub enum SourceKind {
    SingleFile { path: String },
    Directory { root: String },
    Glob { pattern: String, base: String },
}

/// The texts of a [`SourceKind`].
pub enum SourceKindView {
    SingleFile { path: Seq<char> },
    Directory { root: Seq<char> },
    Glob { pattern: Seq<char>, base: Seq<char> },
}

impl View for SourceKind {
    type V = SourceKindView;

    open spec fn view(&self) -> SourceKindView {
        match self {
            SourceKind::SingleFile { path } => SourceKindView::SingleFile { path: path@ },
            SourceKind::Directory { root } => SourceKindView::Directory { root: root@ },
            SourceKind::Glob { pattern, base } => SourceKindView::Glob {
                pattern: pattern@,
                base: base@,
            },
        }
    }
}

/// How a source is read: a glob pattern where it holds a glob character,
/// else a directory where it is one, else a single file.
pub open spec fn source_kind_spec(src: Seq<char>, is_dir: bool, sep: char) -> SourceKindView {
    if glob_index(src) < src.len() {
        SourceKindView::Glob { pattern: src, base: glob_base_spec(src, sep) }
    } else if is_dir {
        SourceKindView::Directory { root: src }
    } else {
        SourceKindView::SingleFile { path: src }
    }
}

/// Decides what kind of source `src` is. `is_dir` says whether `src` names
/// a directory and `sep` is the character that separates the parts of a
/// path.
pub fn detect_source_kind(src: &str, is_dir: bool, sep: char) -> (kind: SourceKind)
    ensures
        kind@ == source_kind_spec(src@, is_dir, sep),
{
    if has_glob_chars(src) {
        SourceKind::Glob { pattern: src.to_owned(), base: glob_base(src, sep) }
    } else if is_dir {
        SourceKind::Directory { root: src.to_owned() }
    } else {
        SourceKind::SingleFile { path: src.to_owned() }
    }
}

/// How the outputs of several templates are named: in a directory, or by a
/// prefix before each name.
#[derive(Debug, Clone, PartialEq, Eq)]
pub enum DestMode {
    Directory(String),
    Prefix(String),
}

/// The texts of a [`DestMode`].
pub enum DestModeView {
    Directory(Seq<char>),
    Prefix(Seq<char>),
}

impl View for DestMode {
    type V = DestModeView;

    open spec fn view(&self) -> DestModeView {
        match self {
            DestMode::Directory(dir) => DestModeView::Directory(dir@),
            DestMode::Prefix(prefix) => DestModeView::Prefix(prefix@),
        }
    }
}

/// How a destination is read: none is the current directory; one that is a
/// directory or ends with the separator is a directory; any other is a
/// prefix.
pub open spec fn dest_mode_spec(
    dest: Option<Seq<char>>,
    is_dir: bool,
    current_dir: Seq<char>,
    sep: char,
) -> DestModeView {
    match dest {
        None => DestModeView::Directory(current_dir),
        Some(path) => if is_dir || (path.len() > 0 && path.last() == sep) {
            DestModeView::Directory(path)
        } else {
            DestModeView::Prefix(path)
        },
    }
}

/// Decides how outputs are named. `is_dir` says whether `dest` names a
/// directory, `current_dir` is the directory to use where there is no
/// `dest`, and `sep` is the character that separates the parts of a path.
pub fn resolve_dest_mode(dest: Option<&str>, is_dir: bool, current_dir: &str, sep: char) -> (mode:
    DestMode)
    ensures
        mode@ == dest_mode_spec(
            match dest {
                Some(d) => Some(d@),
                None => None,
            },
            is_dir,
            current_dir@,
            sep,
        ),
{
    match dest {
        None => DestMode::Directory(current_dir.to_owned()),
        Some(path) => {
            let chars = chars_of(path);
            let n = chars.len();
            if is_dir || (n > 0 && chars[n - 1] == sep) {
                DestMode::Directory(path.to_owned())
            } else {
                DestMode::Prefix(path.to_owned())
            }
        },
    }
}

} // verus!
