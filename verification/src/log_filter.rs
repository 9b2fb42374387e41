//! Which log directives the application runs with.
//!
//! The value of `RUST_LOG` decides. Where the variable is unset, is not
//! Unicode, or holds directives that do not parse, the filter is `info`.

use tracing_subscriber::filter::ParseError;
use tracing_subscriber::EnvFilter;
use vstd::prelude::*;

verus! {

/// `tracing_subscriber::EnvFilter`, a set of log directives.
#[verifier::external_type_specification]
#[verifier::external_body]
pub struct ExEnvFilter(EnvFilter);

/// `tracing_subscriber::filter::ParseError`, why a directive is invalid.
#[verifier::external_type_specification]
#[verifier::external_body]
pub struct ExParseError(ParseError);

/// The directives that a filter holds, as its `Display` writes them.
pub uninterp spec fn filter_text(filter: EnvFilter) -> Seq<char>;

/// The directives of the filter that `EnvFilter::try_new` makes of `text`, as
/// its `Display` writes them; `None` where `text` is rejected.
pub uninterp spec fn parsed_directives(text: Seq<char>) -> Option<Seq<char>>;

/// A level by its lower-case name, which is also how it is displayed.
pub open spec fn is_level_name(text: Seq<char>) -> bool {
    ||| text == "off"@
    ||| text == "error"@
    ||| text == "warn"@
    ||| text == "info"@
    ||| text == "debug"@
    ||| text == "trace"@
}

/// Unicode white space, as `char::is_whitespace` counts it.
pub open spec fn is_white_space(c: char) -> bool {
    ||| 0x9 <= c as int <= 0xd
    ||| c as int == 0x20
    ||| c as int == 0x85
    ||| c as int == 0xa0
    ||| c as int == 0x1680
    ||| 0x2000 <= c as int <= 0x200a
    ||| c as int == 0x2028
    ||| c as int == 0x2029
    ||| c as int == 0x202f
    ||| c as int == 0x205f
    ||| c as int == 0x3000
}

/// Where the first comma from `from` on stands, or the end of the text.
pub open spec fn comma_from(text: Seq<char>, from: nat) -> nat
    decreases text.len() - from,
{
    if from >= text.len() {
        text.len()
    } else if text[from as int] == ',' {
        from
    } else {
        comma_from(text, from + 1)
    }
}

/// How many bytes a character takes in UTF-8.
pub open spec fn char_width(c: char) -> nat {
    if (c as int) < 0x80 {
        1
    } else if (c as int) < 0x800 {
        2
    } else if (c as int) < 0x10000 {
        3
    } else {
        4
    }
}

/// How many bytes the characters from `from` up to `to` take.
pub open spec fn width(text: Seq<char>, from: int, to: int) -> nat
    decreases to - from,
{
    if to <= from {
        0
    } else {
        width(text, from, to - 1) + char_width(text[to - 1])
    }
}

/// One of the first `n` characters starts `offset` bytes into the text, or the
/// last of them ends there.
pub open spec fn is_boundary(text: Seq<char>, n: int, offset: nat) -> bool {
    exists|k: int| 0 <= k <= n && #[trigger] width(text, 0, k) == offset
}

/// The first character of the directive that is no white space stands at `first`.
pub open spec fn trimmed_at(directive: Seq<char>, first: int) -> bool {
    &&& 0 <= first < directive.len()
    &&& !is_white_space(directive[first])
    &&& forall|k: int| 0 <= k < first ==> is_white_space(#[trigger] directive[k])
}

/// How far the parser is with a directive. `aligned` tells whether the part that
/// it is in starts at a character.
#[derive(Clone, Copy)]
pub enum Scan {
    Start,
    LevelOrTarget,
    Span { aligned: bool },
    /// `fresh` as long as the field is empty.
    Field { aligned: bool, fresh: bool },
    Fields,
    Target,
    Level,
    /// The directive is invalid.
    Rejected,
    /// A slice split a character.
    Split,
}

/// How far the parser is after the character at `j`.
///
/// It reads the trimmed directive, but slices the untrimmed one by the offsets
/// that it read: the part before a sign, up to that sign, and what follows it.
/// Which first characters and which fields it takes is told by whether the
/// directive parses up to there.
pub open spec fn scan_step(directive: Seq<char>, first: int, scan: Scan, j: int) -> Scan {
    let c = directive[j];
    let offset = width(directive, first, j);
    let before = is_boundary(directive, j + 1, offset);
    let after = is_boundary(directive, j + 1, offset + 1);
    match scan {
        Scan::Start => if c == '[' {
            Scan::Span { aligned: after }
        } else if parsed_directives(directive.take(j + 1)) is Some {
            Scan::LevelOrTarget
        } else {
            Scan::Rejected
        },
        Scan::LevelOrTarget => if c == '=' {
            if before && after {
                Scan::Level
            } else {
                Scan::Split
            }
        } else if c == '[' {
            if before {
                Scan::Span { aligned: after }
            } else {
                Scan::Split
            }
        } else {
            scan
        },
        Scan::Span { aligned } => if c == ']' {
            if aligned && before {
                Scan::Target
            } else {
                Scan::Split
            }
        } else if c == '{' {
            if aligned && before {
                Scan::Field { aligned: after, fresh: true }
            } else {
                Scan::Split
            }
        } else {
            scan
        },
        Scan::Field { aligned, fresh } => if c == '}' {
            if !(aligned && before) {
                Scan::Split
            } else if fresh {
                Scan::Rejected
            } else {
                Scan::Fields
            }
        } else {
            Scan::Field { aligned, fresh: false }
        },
        Scan::Fields => if c == ']' && parsed_directives(directive.take(j + 1)) is Some {
            Scan::Target
        } else {
            Scan::Rejected
        },
        Scan::Target => if c == '=' {
            if after {
                Scan::Level
            } else {
                Scan::Split
            }
        } else {
            Scan::Rejected
        },
        _ => scan,
    }
}

/// How far the parser is with the directive before the character at `j`.
pub open spec fn scan_to(directive: Seq<char>, first: int, j: int) -> Scan
    decreases j - first,
{
    if j <= first {
        Scan::Start
    } else {
        scan_step(directive, first, scan_to(directive, first, j - 1), j - 1)
    }
}

/// Parsing the directive splits a character.
pub open spec fn splits(directive: Seq<char>) -> bool {
    exists|first: int|
        trimmed_at(directive, first) && #[trigger] scan_to(directive, first, directive.len() as int)
            is Split
}

/// Parsing the text splits no character, which would panic. The directives stand
/// between commas, and are parsed up to the first invalid one.
pub open spec fn sliceable(text: Seq<char>) -> bool
    decreases text.len(),
{
    let end = comma_from(text, 0);
    let directive = text.take(end as int);
    let rest = if end < text.len() {
        sliceable(text.skip(end as int + 1))
    } else {
        true
    };
    if directive.len() == 0 {
        rest
    } else {
        !splits(directive) && (parsed_directives(directive) is Some ==> rest)
    }
}

fn white_space(c: char) -> (b: bool)
    ensures
        b == is_white_space(c),
{
    let code: u32 = c as u32;
    (0x9 <= code && code <= 0xd) || code == 0x20 || code == 0x85 || code == 0xa0 || code == 0x1680
        || (0x2000 <= code && code <= 0x200a) || code == 0x2028 || code == 0x2029 || code == 0x202f
        || code == 0x205f || code == 0x3000
}

fn utf8_width(c: char) -> (n: u128)
    ensures
        n == char_width(c),
{
    let code: u32 = c as u32;
    if code < 0x80 {
        1
    } else if code < 0x800 {
        2
    } else if code < 0x10000 {
        3
    } else {
        4
    }
}

fn to_chars(text: &str) -> (chars: Vec<char>)
    ensures
        chars@ == text@,
{
    let mut chars: Vec<char> = Vec::new();
    for c in it: text.chars()
        invariant
            it.seq() == text@,
            chars@ == text@.take(it.index() as int),
    {
        chars.push(c);
    }
    chars
}

fn has_boundary(text: &Vec<char>, n: usize, offset: u128) -> (b: bool)
    requires
        n <= text@.len(),
    ensures
        b == is_boundary(text@, n as int, offset as nat),
{
    let mut k: usize = 0;
    let mut at: u128 = 0;
    while k < n
        invariant
            k <= n <= text@.len(),
            at == width(text@, 0, k as int),
            at <= 4 * k,
            forall|j: int| 0 <= j < k ==> #[trigger] width(text@, 0, j) != offset,
        decreases n - k,
    {
        if at == offset {
            return true;
        }
        at = at + utf8_width(text[k]);
        k += 1;
    }
    at == offset
}

pub(crate) proof fn lemma_comma_from(text: Seq<char>, from: nat, end: nat)
    requires
        from <= end <= text.len(),
        forall|k: int| from <= k < end ==> #[trigger] text[k] != ',',
        end < text.len() ==> text[end as int] == ',',
    ensures
        comma_from(text, from) == end,
    decreases end - from,
{
    if from < end {
        lemma_comma_from(text, from + 1, end);
    }
}

proof fn lemma_comma_found(text: Seq<char>, from: nat)
    requires
        from <= text.len(),
    ensures
        from <= comma_from(text, from) <= text.len(),
        comma_from(text, from) < text.len() ==> text[comma_from(text, from) as int] == ',',
    decreases text.len() - from,
{
    if from < text.len() && text[from as int] != ',' {
        lemma_comma_found(text, from + 1);
    }
}

pub(crate) proof fn lemma_trimmed_once(directive: Seq<char>)
    ensures
        forall|f: int, g: int|
            #![trigger trimmed_at(directive, f), trimmed_at(directive, g)]
            trimmed_at(directive, f) && trimmed_at(directive, g) ==> f == g,
{
}

/// A text without commas is one directive.
pub(crate) proof fn lemma_one_directive(directive: Seq<char>)
    requires
        directive.len() > 0,
        forall|k: int| 0 <= k < directive.len() ==> #[trigger] directive[k] != ',',
    ensures
        sliceable(directive) == !splits(directive),
{
    lemma_comma_from(directive, 0, directive.len());
    assert(directive.take(directive.len() as int) =~= directive);
}

proof fn lemma_width_of_prefix(text: Seq<char>, n: int, from: int, to: int)
    requires
        0 <= from,
        to <= n <= text.len(),
    ensures
        width(text.take(n), from, to) == width(text, from, to),
    decreases to - from,
{
    if from < to {
        lemma_width_of_prefix(text, n, from, to - 1);
    }
}

/// How far the parser is depends on what it has read.
proof fn lemma_scan_of_prefix(directive: Seq<char>, n: int, first: int, j: int)
    requires
        0 <= first,
        j <= n <= directive.len(),
    ensures
        scan_to(directive.take(n), first, j) == scan_to(directive, first, j),
    decreases j - first,
{
    if first < j {
        let prefix = directive.take(n);
        lemma_scan_of_prefix(directive, n, first, j - 1);
        lemma_width_of_prefix(directive, n, first, j - 1);
        assert(prefix.take(j) =~= directive.take(j));
        assert forall|offset: nat| is_boundary(prefix, j, offset) == is_boundary(
            directive,
            j,
            offset,
        ) by {
            assert forall|k: int| 0 <= k <= j implies #[trigger] width(prefix, 0, k) == width(
                directive,
                0,
                k,
            ) by {
                lemma_width_of_prefix(directive, n, 0, k);
            }
            if is_boundary(directive, j, offset) {
                let k = choose|k: int| 0 <= k <= j && #[trigger] width(directive, 0, k) == offset;
                assert(width(prefix, 0, k) == offset);
            }
        }
        let offset = width(directive, first, j - 1);
        assert(is_boundary(prefix, j, offset) == is_boundary(directive, j, offset));
        assert(is_boundary(prefix, j, offset + 1) == is_boundary(directive, j, offset + 1));
    }
}

/// Where the parser has read on without splitting a character, what it has read
/// is itself a directive that splits none.
proof fn lemma_prefix_sliceable(directive: Seq<char>, first: int, j: int)
    requires
        trimmed_at(directive, first),
        first <= j < directive.len(),
        forall|k: int| 0 <= k < directive.len() ==> #[trigger] directive[k] != ',',
        !(scan_to(directive, first, j + 1) is Split),
    ensures
        sliceable(directive.take(j + 1)),
{
    let prefix = directive.take(j + 1);
    lemma_scan_of_prefix(directive, j + 1, first, j + 1);
    lemma_one_directive(prefix);
    assert(trimmed_at(prefix, first)) by {
        assert forall|k: int| 0 <= k < first implies is_white_space(#[trigger] prefix[k]) by {
            assert(is_white_space(directive[k]));
        }
    }
    lemma_trimmed_once(prefix);
}

/// Whether parsing the directive splits a character.
fn splits_directive(directive: &str) -> (b: bool)
    requires
        forall|k: int| 0 <= k < directive@.len() ==> #[trigger] directive@[k] != ',',
    ensures
        b == splits(directive@),
{
    let chars: Vec<char> = to_chars(directive);
    let mut first: usize = 0;
    while first < chars.len() && white_space(chars[first])
        invariant
            chars@ == directive@,
            first <= chars@.len(),
            forall|k: int| 0 <= k < first ==> is_white_space(#[trigger] directive@[k]),
        decreases chars@.len() - first,
    {
        first += 1;
    }
    if first == chars.len() {
        return false;
    }
    assert(trimmed_at(directive@, first as int));
    let mut scan: Scan = Scan::Start;
    let mut offset: u128 = 0;
    let mut j: usize = first;
    while j < chars.len()
        invariant
            chars@ == directive@,
            forall|k: int| 0 <= k < directive@.len() ==> #[trigger] directive@[k] != ',',
            trimmed_at(directive@, first as int),
            first <= j <= chars@.len(),
            scan == scan_to(directive@, first as int, j as int),
            offset == width(directive@, first as int, j as int),
            offset <= 4 * (j - first),
        decreases chars@.len() - j,
    {
        let c: char = chars[j];
        let ghost before = scan;
        assert(scan_to(directive@, first as int, j + 1) == scan_step(
            directive@,
            first as int,
            before,
            j as int,
        ));
        scan = match scan {
            Scan::Start => if c == '[' {
                Scan::Span { aligned: has_boundary(&chars, j + 1, offset + 1) }
            } else if parses_to(directive, first, j) {
                Scan::LevelOrTarget
            } else {
                Scan::Rejected
            },
            Scan::LevelOrTarget => if c == '=' {
                if has_boundary(&chars, j + 1, offset) && has_boundary(&chars, j + 1, offset + 1) {
                    Scan::Level
                } else {
                    Scan::Split
                }
            } else if c == '[' {
                if has_boundary(&chars, j + 1, offset) {
                    Scan::Span { aligned: has_boundary(&chars, j + 1, offset + 1) }
                } else {
                    Scan::Split
                }
            } else {
                scan
            },
            Scan::Span { aligned } => if c == ']' {
                if aligned && has_boundary(&chars, j + 1, offset) {
                    Scan::Target
                } else {
                    Scan::Split
                }
            } else if c == '{' {
                if aligned && has_boundary(&chars, j + 1, offset) {
                    Scan::Field {
                        aligned: has_boundary(&chars, j + 1, offset + 1),
                        fresh: true,
                    }
                } else {
                    Scan::Split
                }
            } else {
                scan
            },
            Scan::Field { aligned, fresh } => if c == '}' {
                if !(aligned && has_boundary(&chars, j + 1, offset)) {
                    Scan::Split
                } else if fresh {
                    Scan::Rejected
                } else {
                    Scan::Fields
                }
            } else {
                Scan::Field { aligned, fresh: false }
            },
            Scan::Fields => if c == ']' && parses_to(directive, first, j) {
                Scan::Target
            } else {
                Scan::Rejected
            },
            Scan::Target => if c == '=' {
                if has_boundary(&chars, j + 1, offset + 1) {
                    Scan::Level
                } else {
                    Scan::Split
                }
            } else {
                Scan::Rejected
            },
            Scan::Level => scan,
            Scan::Rejected => scan,
            Scan::Split => scan,
        };
        assert(width(directive@, first as int, j + 1) == width(directive@, first as int, j as int)
            + char_width(c));
        offset = offset + utf8_width(c);
        j += 1;
    }
    proof {
        lemma_trimmed_once(directive@);
    }
    match scan {
        Scan::Split => true,
        _ => false,
    }
}

/// Whether the directive parses up to the character at `j`.
fn parses_to(directive: &str, first: usize, j: usize) -> (b: bool)
    requires
        trimmed_at(directive@, first as int),
        first <= j < directive@.len(),
        j < usize::MAX,
        forall|k: int| 0 <= k < directive@.len() ==> #[trigger] directive@[k] != ',',
        !(scan_to(directive@, first as int, j + 1) is Split),
    ensures
        b == (parsed_directives(directive@.take(j + 1)) is Some),
{
    proof {
        lemma_prefix_sliceable(directive@, first as int, j as int);
    }
    let prefix: &str = directive.substring_char(0, j + 1);
    assert(prefix@ =~= directive@.take(j + 1));
    try_new_filter(prefix).is_ok()
}

/// Whether `text` can be parsed without splitting a character.
pub fn is_sliceable(text: &str) -> (b: bool)
    ensures
        b == sliceable(text@),
{
    let chars: Vec<char> = to_chars(text);
    let mut start: usize = 0;
    assert(text@.skip(0) =~= text@);
    while start <= chars.len()
        invariant
            chars@ == text@,
            start <= chars@.len(),
            sliceable(text@) == sliceable(text@.skip(start as int)),
        decreases chars@.len() - start,
    {
        let mut end: usize = start;
        while end < chars.len() && chars[end] != ','
            invariant
                chars@ == text@,
                start <= end <= chars@.len(),
                forall|k: int| start <= k < end ==> #[trigger] text@[k] != ',',
            decreases chars@.len() - end,
        {
            end += 1;
        }
        let ghost rest = text@.skip(start as int);
        let directive: &str = text.substring_char(start, end);
        proof {
            lemma_comma_from(rest, 0, (end - start) as nat);
            assert(directive@ =~= rest.take(end - start));
            if end < chars@.len() {
                assert(rest.skip(end - start + 1) =~= text@.skip(end + 1));
            }
        }
        if start < end {
            if splits_directive(directive) {
                return false;
            }
            proof {
                lemma_one_directive(directive@);
            }
            if try_new_filter(directive).is_err() {
                return true;
            }
        }
        if end == chars.len() {
            return true;
        }
        start = end + 1;
    }
    true
}

proof fn lemma_ascii_width(text: Seq<char>, from: int, to: int)
    requires
        0 <= from <= to <= text.len(),
        is_ascii_text(text),
    ensures
        width(text, from, to) == to - from,
    decreases to - from,
{
    if from < to {
        lemma_ascii_width(text, from, to - 1);
    }
}

/// Every character is ASCII.
pub open spec fn is_ascii_text(text: Seq<char>) -> bool {
    forall|k: int| 0 <= k < text.len() ==> (#[trigger] text[k] as int) < 0x80
}

/// No directive starts with white space.
pub open spec fn is_unspaced(text: Seq<char>) -> bool {
    forall|k: int|
        0 <= k < text.len() && (k == 0 || text[k - 1] == ',') ==> !is_white_space(#[trigger] text[k])
}

proof fn lemma_never_splits(directive: Seq<char>, first: int, j: int)
    requires
        trimmed_at(directive, first),
        j <= directive.len(),
        is_ascii_text(directive) || first == 0,
    ensures
        match scan_to(directive, first, j) {
            Scan::Split => false,
            Scan::Span { aligned } => aligned,
            Scan::Field { aligned, .. } => aligned,
            _ => true,
        },
    decreases j - first,
{
    if first < j {
        lemma_never_splits(directive, first, j - 1);
        let offset = width(directive, first, j - 1);
        if is_ascii_text(directive) {
            lemma_ascii_width(directive, first, j - 1);
            lemma_ascii_width(directive, 0, j - 1 - first);
            lemma_ascii_width(directive, 0, j - first);
            assert(width(directive, 0, j - 1 - first) == offset);
            assert(width(directive, 0, j - first) == offset + 1);
        } else {
            assert(width(directive, 0, j - 1) == offset);
            assert(width(directive, 0, j) == offset + char_width(directive[j - 1]));
        }
    }
}

/// A text is sliceable where it is ASCII, and where no directive of it starts
/// with white space.
pub proof fn law_sliceable_texts(text: Seq<char>)
    requires
        is_ascii_text(text) || is_unspaced(text),
    ensures
        sliceable(text),
    decreases text.len(),
{
    lemma_comma_found(text, 0);
    let end = comma_from(text, 0) as int;
    let directive = text.take(end);
    if splits(directive) {
        let first = choose|first: int|
            trimmed_at(directive, first) && #[trigger] scan_to(
                directive,
                first,
                directive.len() as int,
            ) is Split;
        if is_ascii_text(text) {
            assert(is_ascii_text(directive));
        } else {
            assert(!is_white_space(text[0]));
            assert(directive[0] == text[0]);
        }
        lemma_never_splits(directive, first, directive.len() as int);
    }
    if end < text.len() {
        let rest = text.skip(end + 1);
        if is_ascii_text(text) {
            assert(is_ascii_text(rest));
        } else {
            assert forall|k: int|
                0 <= k < rest.len() && (k == 0 || rest[k - 1] == ',') implies !is_white_space(
                #[trigger] rest[k],
            ) by {
                assert(!is_white_space(text[end + 1 + k]));
            }
        }
        law_sliceable_texts(rest);
    }
}

/// The directives of a filter that was parsed, `None` where parsing failed.
pub open spec fn accepted_text(parsed: Result<EnvFilter, ParseError>) -> Option<Seq<char>> {
    match parsed {
        Ok(filter) => Some(filter_text(filter)),
        Err(_) => None,
    }
}

/// `EnvFilter::try_new`: the filter with the directives of `text`, or an error
/// if one of them is invalid.
///
/// Trusted: whether `text` parses, and the directives that the filter holds,
/// depend on `text` alone; the name of a level is a directive that displays as
/// itself; the empty text has no directives. What else a directive may look
/// like, what the error says, and what memory the automaton of a regular
/// expression in a directive takes, is left unsaid.
#[verifier::external_body]
fn try_new_filter(text: &str) -> (parsed: Result<EnvFilter, ParseError>)
    requires
        sliceable(text@),
    ensures
        accepted_text(parsed) == parsed_directives(text@),
        is_level_name(text@) ==> accepted_text(parsed) == Some(text@),
        text@.len() == 0 ==> accepted_text(parsed) == Some(text@),
{
    EnvFilter::try_new(text)
}

/// `EnvFilter::new`, for the name of a level.
///
/// Trusted: the filter holds the one directive that `text` is.
#[verifier::external_body]
fn new_filter(text: &str) -> (filter: EnvFilter)
    requires
        is_level_name(text@),
    ensures
        filter_text(filter) == text@,
{
    EnvFilter::new(text)
}

/// The parsed filter where there is one, else `info`.
pub fn filter_or_default(parsed: Option<EnvFilter>) -> (filter: EnvFilter)
    ensures
        match parsed {
            Some(given) => filter == given,
            None => filter_text(filter) == "info"@,
        },
{
    match parsed {
        Some(given) => given,
        None => new_filter("info"),
    }
}

/// The directives to log by, given what the strict parser made of `RUST_LOG`.
pub open spec fn chosen_directives(parsed: Option<Seq<char>>) -> Seq<char> {
    match parsed {
        Some(directives) => directives,
        None => "info"@,
    }
}

/// The directives to log by, for the value of `RUST_LOG` where the variable is
/// set and Unicode.
pub open spec fn directives_for(rust_log: Option<&str>) -> Seq<char> {
    match rust_log {
        Some(text) => chosen_directives(parsed_directives(text@)),
        None => "info"@,
    }
}

/// Every value that parses is used, with the directives that it parses to; the
/// level is `info` only where the variable is missing, or its value does not parse.
pub proof fn law_valid_directives_are_used(rust_log: Option<&str>)
    ensures
        rust_log is None ==> directives_for(rust_log) == "info"@,
        rust_log matches Some(text) ==> parsed_directives(text@) is None ==> directives_for(
            rust_log,
        ) == "info"@,
        rust_log matches Some(text) ==> parsed_directives(text@) matches Some(directives)
            ==> directives_for(rust_log) == directives,
        directives_for(rust_log) != "info"@ ==> (rust_log matches Some(text) && parsed_directives(
            text@,
        ) == Some(directives_for(rust_log))),
{
}

/// The filter that the application logs by, for the value of `RUST_LOG` where
/// the variable is set and Unicode.
///
/// The variable controls the level; without it, or with directives that do not
/// parse, the level is `info`. A variable that is set but empty switches every
/// level off: the filter has no directives.
pub fn log_filter(rust_log: Option<&str>) -> (filter: EnvFilter)
    requires
        rust_log matches Some(text) ==> sliceable(text@),
    ensures
        filter_text(filter) == directives_for(rust_log),
        rust_log matches Some(text) ==> is_level_name(text@) ==> filter_text(filter) == text@,
        rust_log matches Some(text) ==> text@.len() == 0 ==> filter_text(filter) == text@,
        rust_log is None ==> filter_text(filter) == "info"@,
        rust_log matches Some(text) ==> parsed_directives(text@) is None ==> filter_text(filter)
            == "info"@,
        rust_log matches Some(text) ==> parsed_directives(text@) matches Some(directives)
            ==> filter_text(filter) == directives,
{
    match rust_log {
        Some(text) => match try_new_filter(text) {
            Ok(filter) => filter_or_default(Some(filter)),
            Err(_) => filter_or_default(None),
        },
        None => filter_or_default(None),
    }
}

} // verus!
