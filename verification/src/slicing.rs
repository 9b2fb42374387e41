//! Which values of `RUST_LOG` can be sliced, told by their characters.
//!
//! A directive is read from its first character that is no white space, but
//! sliced from its very start, by the offsets that were read. So a slice may fall
//! inside a character where white space comes first.

use vstd::prelude::*;

verus! {

proof fn lemma_width_from_front(text: Seq<char>, from: int, to: int)
    requires
        from < to,
    ensures
        crate::log_filter::width(text, from, to) == crate::log_filter::char_width(text[from])
            + crate::log_filter::width(text, from + 1, to),
    decreases to - from,
{
    if from + 1 < to {
        lemma_width_from_front(text, from, to - 1);
    } else {
        assert(crate::log_filter::width(text, from, to - 1) == 0);
        assert(crate::log_filter::width(text, from + 1, to) == 0);
    }
}

proof fn lemma_width_of_part(text: Seq<char>, start: int, end: int, from: int, to: int)
    requires
        0 <= start <= end <= text.len(),
        0 <= from <= to <= end - start,
    ensures
        crate::log_filter::width(text.subrange(start, end), from, to) == crate::log_filter::width(
            text,
            start + from,
            start + to,
        ),
    decreases to - from,
{
    if from < to {
        lemma_width_of_part(text, start, end, from, to - 1);
    }
}

proof fn lemma_width_grows(text: Seq<char>, from: int, j: int, k: int)
    requires
        from <= j <= k,
    ensures
        crate::log_filter::width(text, from, j) + (k - j) <= crate::log_filter::width(text, from, k),
    decreases k - j,
{
    if j < k {
        lemma_width_grows(text, from, j, k - 1);
    }
}

proof fn lemma_width_from_earlier(text: Seq<char>, from: int, to: int)
    requires
        0 <= from <= to,
    ensures
        crate::log_filter::width(text, from, to) <= crate::log_filter::width(text, 0, to),
    decreases from,
{
    if from > 0 {
        lemma_width_from_front(text, from - 1, to);
        lemma_width_from_earlier(text, from - 1, to);
    }
}

proof fn lemma_char_width(c: char)
    ensures
        vstd::utf8::encode_scalar(c as u32).len() == crate::log_filter::char_width(c),
{
    vstd::utf8::char_is_scalar(c);
}

/// The bytes that a text takes are those of its UTF-8 encoding.
pub proof fn law_width_is_utf8(text: Seq<char>)
    ensures
        crate::log_filter::width(text, 0, text.len() as int) == vstd::utf8::encode_utf8(text).len(),
    decreases text.len(),
{
    if text.len() > 0 {
        let rest = text.drop_first();
        law_width_is_utf8(rest);
        lemma_width_from_front(text, 0, text.len() as int);
        lemma_width_of_part(text, 1, text.len() as int, 0, rest.len() as int);
        assert(rest =~= text.subrange(1, text.len() as int));
        lemma_char_width(text[0]);
    }
}

/// A place in the bytes of a text is between two characters, or at an end of the
/// text, exactly where UTF-8 has a character boundary.
pub proof fn law_boundaries_are_utf8(text: Seq<char>, offset: nat)
    ensures
        crate::log_filter::is_boundary(text, text.len() as int, offset)
            <==> vstd::utf8::is_char_boundary(vstd::utf8::encode_utf8(text), offset as int),
    decreases text.len(),
{
    let n = text.len() as int;
    let bytes = vstd::utf8::encode_utf8(text);
    vstd::utf8::encode_utf8_valid_utf8(text);
    assert(crate::log_filter::width(text, 0, 0) == 0);
    if n > 0 && offset > 0 {
        let rest = text.drop_first();
        let w = crate::log_filter::char_width(text[0]);
        assert(rest =~= text.subrange(1, n));
        vstd::utf8::encode_utf8_first_scalar(text);
        vstd::utf8::encode_utf8_valid_utf8(rest);
        lemma_char_width(text[0]);
        assert(vstd::utf8::pop_first_scalar(bytes) =~= vstd::utf8::encode_utf8(rest));
        assert forall|k: int| 0 < k <= n implies #[trigger] crate::log_filter::width(text, 0, k) == w
            + crate::log_filter::width(rest, 0, k - 1) by {
            lemma_width_from_front(text, 0, k);
            lemma_width_of_part(text, 1, n, 0, k - 1);
        }
        reveal_with_fuel(vstd::utf8::is_char_boundary, 2);
        if offset >= w {
            law_boundaries_are_utf8(rest, (offset - w) as nat);
            if crate::log_filter::is_boundary(rest, n - 1, (offset - w) as nat) {
                let k = choose|k: int|
                    0 <= k <= n - 1 && #[trigger] crate::log_filter::width(rest, 0, k) == offset - w;
                assert(crate::log_filter::width(text, 0, k + 1) == offset);
            }
            if crate::log_filter::is_boundary(text, n, offset) {
                let k = choose|k: int|
                    0 <= k <= n && #[trigger] crate::log_filter::width(text, 0, k) == offset;
                assert(crate::log_filter::width(rest, 0, k - 1) == offset - w);
            }
        }
        law_width_is_utf8(text);
        if crate::log_filter::is_boundary(text, n, offset) {
            let k = choose|k: int|
                0 <= k <= n && #[trigger] crate::log_filter::width(text, 0, k) == offset;
            lemma_width_grows(text, 0, k, n);
        }
    }
}

/// The offset of the character at `j`, and the boundaries that the parser asks for there.
proof fn lemma_offset(directive: Seq<char>, first: int, j: int)
    requires
        0 <= first <= j < directive.len(),
    ensures
        ({
            let bytes = vstd::utf8::encode_utf8(directive);
            let offset = crate::log_filter::width(directive, first, j);
            &&& offset == vstd::utf8::encode_utf8(directive.subrange(first, j)).len()
            &&& crate::log_filter::is_boundary(directive, j + 1, offset)
                == vstd::utf8::is_char_boundary(bytes, offset as int)
            &&& crate::log_filter::is_boundary(directive, j + 1, offset + 1)
                == vstd::utf8::is_char_boundary(bytes, offset as int + 1)
        }),
{
    let offset = crate::log_filter::width(directive, first, j);
    law_width_is_utf8(directive.subrange(first, j));
    lemma_width_of_part(directive, first, j, 0, j - first);
    lemma_width_from_earlier(directive, first, j);
    lemma_width_grows(directive, 0, j, j + 1);
    lemma_boundary_of_prefix(directive, j + 1, offset);
    lemma_boundary_of_prefix(directive, j + 1, offset + 1);
    law_boundaries_are_utf8(directive, offset);
    law_boundaries_are_utf8(directive, offset + 1);
}

proof fn lemma_boundary_of_prefix(text: Seq<char>, n: int, offset: nat)
    requires
        0 <= n <= text.len(),
        offset <= crate::log_filter::width(text, 0, n),
    ensures
        crate::log_filter::is_boundary(text, n, offset) == crate::log_filter::is_boundary(
            text,
            text.len() as int,
            offset,
        ),
{
    if crate::log_filter::is_boundary(text, text.len() as int, offset) {
        let k = choose|k: int|
            0 <= k <= text.len() && #[trigger] crate::log_filter::width(text, 0, k) == offset;
        if k > n {
            lemma_width_grows(text, 0, n, k);
        }
        assert(crate::log_filter::width(text, 0, k) == offset);
    }
}

/// A state that no character up to `to` leads out of lasts until there.
proof fn lemma_stays(directive: Seq<char>, first: int, from: int, to: int)
    requires
        first <= from <= to,
        forall|j: int|
            from <= j < to ==> #[trigger] crate::log_filter::scan_step(
                directive,
                first,
                crate::log_filter::scan_to(directive, first, from),
                j,
            ) == crate::log_filter::scan_to(directive, first, from),
    ensures
        crate::log_filter::scan_to(directive, first, to) == crate::log_filter::scan_to(
            directive,
            first,
            from,
        ),
    decreases to - from,
{
    if from < to {
        lemma_stays(directive, first, from, to - 1);
        assert(crate::log_filter::scan_step(
            directive,
            first,
            crate::log_filter::scan_to(directive, first, from),
            to - 1,
        ) == crate::log_filter::scan_to(directive, first, from));
    }
}

/// One directive, whose first character that is no white space stands at `first`.
pub open spec fn read_from(directive: Seq<char>, first: int) -> bool {
    &&& 0 <= first < directive.len()
    &&& !crate::log_filter::is_white_space(directive[first])
    &&& forall|k: int|
        0 <= k < first ==> crate::log_filter::is_white_space(#[trigger] directive[k])
    &&& forall|k: int| 0 <= k < directive.len() ==> #[trigger] directive[k] != ','
}

/// How many bytes were read before the character at `k`.
pub open spec fn offset(directive: Seq<char>, first: int, k: int) -> int {
    vstd::utf8::encode_utf8(directive.subrange(first, k)).len() as int
}

/// The directive can be cut after so many bytes without splitting a character.
pub open spec fn can_cut(directive: Seq<char>, bytes: int) -> bool {
    vstd::utf8::is_char_boundary(vstd::utf8::encode_utf8(directive), bytes)
}

/// The directive starts with a target or a level.
pub open spec fn starts_with_target(directive: Seq<char>, first: int) -> bool {
    directive[first] != '[' && crate::log_filter::parsed_directives(directive.take(first + 1))
        is Some
}

/// A span opens at `at`: it is the first character, or the first sign after a
/// target that can be cut off there.
pub open spec fn span_opens(directive: Seq<char>, first: int, at: int) -> bool {
    &&& first <= at < directive.len()
    &&& directive[at] == '['
    &&& at == first || {
        &&& starts_with_target(directive, first)
        &&& forall|k: int|
            first < k < at ==> #[trigger] directive[k] != '=' && directive[k] != '['
        &&& can_cut(directive, offset(directive, first, at))
    }
}

proof fn lemma_by_scan(directive: Seq<char>, first: int)
    requires
        read_from(directive, first),
    ensures
        crate::log_filter::sliceable(directive) == !(crate::log_filter::scan_to(
            directive,
            first,
            directive.len() as int,
        ) is Split),
{
    crate::log_filter::lemma_one_directive(directive);
    crate::log_filter::lemma_trimmed_once(directive);
    assert(crate::log_filter::trimmed_at(directive, first));
}

/// After a target is read, up to the first sign at `at`.
proof fn lemma_target(directive: Seq<char>, first: int, at: int)
    requires
        read_from(directive, first),
        starts_with_target(directive, first),
        first < at <= directive.len(),
        forall|k: int| first < k < at ==> #[trigger] directive[k] != '=' && directive[k] != '[',
    ensures
        crate::log_filter::scan_to(directive, first, at)
            == crate::log_filter::Scan::LevelOrTarget,
{
    assert(crate::log_filter::scan_to(directive, first, first)
        == crate::log_filter::Scan::Start);
    assert(crate::log_filter::scan_to(directive, first, first + 1)
        == crate::log_filter::Scan::LevelOrTarget);
    lemma_stays(directive, first, first + 1, at);
}

/// After the span opened at `at`, up to the first sign at `end`.
proof fn lemma_span(directive: Seq<char>, first: int, at: int, end: int)
    requires
        read_from(directive, first),
        span_opens(directive, first, at),
        at < end <= directive.len(),
        forall|k: int| at < k < end ==> #[trigger] directive[k] != ']' && directive[k] != '{',
    ensures
        crate::log_filter::scan_to(directive, first, end) == (crate::log_filter::Scan::Span {
            aligned: can_cut(directive, offset(directive, first, at) + 1),
        }),
{
    lemma_offset(directive, first, at);
    if at > first {
        lemma_target(directive, first, at);
    } else {
        assert(crate::log_filter::scan_to(directive, first, first)
            == crate::log_filter::Scan::Start);
    }
    assert(crate::log_filter::scan_to(directive, first, at + 1)
        == crate::log_filter::scan_step(
        directive,
        first,
        crate::log_filter::scan_to(directive, first, at),
        at,
    ));
    lemma_stays(directive, first, at + 1, end);
}

/// After a span, or its fields, at the character after the closing sign: only a
/// level is cut off there.
proof fn lemma_after_span(directive: Seq<char>, first: int, next: int)
    requires
        read_from(directive, first),
        first < next <= directive.len(),
        crate::log_filter::scan_to(directive, first, next) == crate::log_filter::Scan::Target,
    ensures
        crate::log_filter::sliceable(directive) <==> (next < directive.len() && directive[next]
            == '=' ==> can_cut(directive, offset(directive, first, next) + 1)),
{
    lemma_by_scan(directive, first);
    if next < directive.len() {
        lemma_offset(directive, first, next);
        assert(crate::log_filter::scan_to(directive, first, next + 1)
            == crate::log_filter::scan_step(
            directive,
            first,
            crate::log_filter::Scan::Target,
            next,
        ));
        lemma_stays(directive, first, next + 1, directive.len() as int);
    }
}

/// White space is what Unicode calls so: the tab and the four controls after it,
/// the space, and the spaces and separators beyond ASCII.
pub proof fn law_white_space(c: char)
    ensures
        crate::log_filter::is_white_space(c) <==> (c == '\t' || c == '\n' || c == '\u{b}' || c
            == '\u{c}' || c == '\r' || c == ' ' || c == '\u{85}' || c == '\u{a0}' || c
            == '\u{1680}' || ('\u{2000}' as int <= c as int <= '\u{200a}' as int) || c
            == '\u{2028}' || c == '\u{2029}' || c == '\u{202f}' || c == '\u{205f}' || c
            == '\u{3000}'),
{
}

/// Nothing is sliced of a directive that is all white space, and of the empty text.
pub proof fn law_white_directive(directive: Seq<char>)
    requires
        forall|k: int|
            0 <= k < directive.len() ==> crate::log_filter::is_white_space(#[trigger] directive[k]),
    ensures
        crate::log_filter::sliceable(directive),
{
    if directive.len() > 0 {
        crate::log_filter::lemma_one_directive(directive);
    } else {
        crate::log_filter::law_sliceable_texts(directive);
    }
}

/// Of a directive with a first character that none can start with, nothing is
/// sliced, whatever follows.
pub proof fn law_invalid_start(directive: Seq<char>, first: int)
    requires
        read_from(directive, first),
        directive[first] != '[',
        crate::log_filter::parsed_directives(directive.take(first + 1)) is None,
    ensures
        crate::log_filter::sliceable(directive),
{
    lemma_by_scan(directive, first);
    assert(crate::log_filter::scan_to(directive, first, first)
        == crate::log_filter::Scan::Start);
    assert(crate::log_filter::scan_to(directive, first, first + 1)
        == crate::log_filter::Scan::Rejected);
    lemma_stays(directive, first, first + 1, directive.len() as int);
}

/// A target or a level alone is taken whole.
pub proof fn law_target_alone(directive: Seq<char>, first: int)
    requires
        read_from(directive, first),
        starts_with_target(directive, first),
        forall|k: int|
            first < k < directive.len() ==> #[trigger] directive[k] != '=' && directive[k] != '[',
    ensures
        crate::log_filter::sliceable(directive),
{
    lemma_by_scan(directive, first);
    lemma_target(directive, first, directive.len() as int);
}

/// A target with a level is cut before and after the sign between them, whatever
/// the level looks like.
pub proof fn law_target_and_level(directive: Seq<char>, first: int, at: int)
    requires
        read_from(directive, first),
        starts_with_target(directive, first),
        first < at < directive.len(),
        directive[at] == '=',
        forall|k: int| first < k < at ==> #[trigger] directive[k] != '=' && directive[k] != '[',
    ensures
        crate::log_filter::sliceable(directive) <==> can_cut(
            directive,
            offset(directive, first, at),
        ) && can_cut(directive, offset(directive, first, at) + 1),
{
    lemma_by_scan(directive, first);
    lemma_target(directive, first, at);
    lemma_offset(directive, first, at);
    assert(crate::log_filter::scan_to(directive, first, at + 1) == crate::log_filter::scan_step(
        directive,
        first,
        crate::log_filter::Scan::LevelOrTarget,
        at,
    ));
    lemma_stays(directive, first, at + 1, directive.len() as int);
}

/// A target that cannot be cut off where a span opens splits a character.
pub proof fn law_target_before_span(directive: Seq<char>, first: int, at: int)
    requires
        read_from(directive, first),
        starts_with_target(directive, first),
        first < at < directive.len(),
        directive[at] == '[',
        forall|k: int| first < k < at ==> #[trigger] directive[k] != '=' && directive[k] != '[',
        !can_cut(directive, offset(directive, first, at)),
    ensures
        !crate::log_filter::sliceable(directive),
{
    lemma_by_scan(directive, first);
    lemma_target(directive, first, at);
    lemma_offset(directive, first, at);
    assert(crate::log_filter::scan_to(directive, first, at + 1) == crate::log_filter::scan_step(
        directive,
        first,
        crate::log_filter::Scan::LevelOrTarget,
        at,
    ));
    lemma_stays(directive, first, at + 1, directive.len() as int);
}

/// Nothing is cut of a span that does not end.
pub proof fn law_open_span(directive: Seq<char>, first: int, at: int)
    requires
        read_from(directive, first),
        span_opens(directive, first, at),
        forall|k: int|
            at < k < directive.len() ==> #[trigger] directive[k] != ']' && directive[k] != '{',
    ensures
        crate::log_filter::sliceable(directive),
{
    lemma_by_scan(directive, first);
    lemma_span(directive, first, at, directive.len() as int);
}

/// A span is cut at its two ends, and a level right after it at its start.
pub proof fn law_span(directive: Seq<char>, first: int, at: int, end: int)
    requires
        read_from(directive, first),
        span_opens(directive, first, at),
        at < end < directive.len(),
        directive[end] == ']',
        forall|k: int| at < k < end ==> #[trigger] directive[k] != ']' && directive[k] != '{',
    ensures
        crate::log_filter::sliceable(directive) <==> {
            &&& can_cut(directive, offset(directive, first, at) + 1)
            &&& can_cut(directive, offset(directive, first, end))
            &&& end + 1 < directive.len() && directive[end + 1] == '=' ==> can_cut(
                directive,
                offset(directive, first, end + 1) + 1,
            )
        },
{
    lemma_by_scan(directive, first);
    lemma_span(directive, first, at, end);
    lemma_offset(directive, first, end);
    assert(crate::log_filter::scan_to(directive, first, end + 1) == crate::log_filter::scan_step(
        directive,
        first,
        crate::log_filter::scan_to(directive, first, end),
        end,
    ));
    if crate::log_filter::scan_to(directive, first, end + 1) is Split {
        lemma_stays(directive, first, end + 1, directive.len() as int);
    } else {
        lemma_after_span(directive, first, end + 1);
    }
}

/// A span with fields is cut at its two ends, whether or not the fields end.
pub proof fn law_span_with_open_fields(directive: Seq<char>, first: int, at: int, open: int)
    requires
        read_from(directive, first),
        span_opens(directive, first, at),
        at < open < directive.len(),
        directive[open] == '{',
        forall|k: int| at < k < open ==> #[trigger] directive[k] != ']' && directive[k] != '{',
    ensures
        !(can_cut(directive, offset(directive, first, at) + 1) && can_cut(
            directive,
            offset(directive, first, open),
        )) ==> !crate::log_filter::sliceable(directive),
        can_cut(directive, offset(directive, first, at) + 1) && can_cut(
            directive,
            offset(directive, first, open),
        ) && (forall|k: int| open < k < directive.len() ==> #[trigger] directive[k] != '}')
            ==> crate::log_filter::sliceable(directive),
{
    lemma_by_scan(directive, first);
    if can_cut(directive, offset(directive, first, at) + 1) && can_cut(
        directive,
        offset(directive, first, open),
    ) {
        if forall|k: int| open < k < directive.len() ==> #[trigger] directive[k] != '}' {
            lemma_fields(directive, first, at, open, directive.len() as int);
        }
    } else {
        lemma_span(directive, first, at, open);
        lemma_offset(directive, first, open);
        assert(crate::log_filter::scan_to(directive, first, open + 1)
            == crate::log_filter::scan_step(
            directive,
            first,
            crate::log_filter::scan_to(directive, first, open),
            open,
        ));
        lemma_stays(directive, first, open + 1, directive.len() as int);
    }
}

/// After fields opened at `open`, up to where they close.
proof fn lemma_fields(directive: Seq<char>, first: int, at: int, open: int, close: int)
    requires
        read_from(directive, first),
        span_opens(directive, first, at),
        at < open < close <= directive.len(),
        directive[open] == '{',
        forall|k: int| at < k < open ==> #[trigger] directive[k] != ']' && directive[k] != '{',
        forall|k: int| open < k < close ==> #[trigger] directive[k] != '}',
        can_cut(directive, offset(directive, first, at) + 1),
        can_cut(directive, offset(directive, first, open)),
    ensures
        crate::log_filter::scan_to(directive, first, close) == (crate::log_filter::Scan::Field {
            aligned: can_cut(directive, offset(directive, first, open) + 1),
            fresh: close == open + 1,
        }),
{
    lemma_span(directive, first, at, open);
    lemma_offset(directive, first, open);
    assert(crate::log_filter::scan_to(directive, first, open + 1) == crate::log_filter::scan_step(
        directive,
        first,
        crate::log_filter::scan_to(directive, first, open),
        open,
    ));
    if open + 1 < close {
        assert(crate::log_filter::scan_to(directive, first, open + 2)
            == crate::log_filter::scan_step(
            directive,
            first,
            crate::log_filter::scan_to(directive, first, open + 1),
            open + 1,
        ));
        lemma_stays(directive, first, open + 2, close);
    }
}

/// A span with fields is cut at its ends and at those of the fields. A level
/// after it is cut off only where there are fields, which parse, with the end of
/// the span right behind them.
pub proof fn law_span_with_fields(
    directive: Seq<char>,
    first: int,
    at: int,
    open: int,
    close: int,
)
    requires
        read_from(directive, first),
        span_opens(directive, first, at),
        at < open < close < directive.len(),
        directive[open] == '{',
        directive[close] == '}',
        forall|k: int| at < k < open ==> #[trigger] directive[k] != ']' && directive[k] != '{',
        forall|k: int| open < k < close ==> #[trigger] directive[k] != '}',
    ensures
        crate::log_filter::sliceable(directive) <==> {
            &&& can_cut(directive, offset(directive, first, at) + 1)
            &&& can_cut(directive, offset(directive, first, open))
            &&& can_cut(directive, offset(directive, first, open) + 1)
            &&& can_cut(directive, offset(directive, first, close))
            &&& close > open + 1 && close + 2 < directive.len() && directive[close + 1] == ']'
                && crate::log_filter::parsed_directives(directive.take(close + 2)) is Some
                && directive[close + 2] == '=' ==> can_cut(
                directive,
                offset(directive, first, close + 2) + 1,
            )
        },
{
    let n = directive.len() as int;
    lemma_by_scan(directive, first);
    law_span_with_open_fields(directive, first, at, open);
    if can_cut(directive, offset(directive, first, at) + 1) && can_cut(
        directive,
        offset(directive, first, open),
    ) {
        lemma_fields(directive, first, at, open, close);
        lemma_offset(directive, first, close);
        let closed = crate::log_filter::scan_to(directive, first, close + 1);
        assert(closed == crate::log_filter::scan_step(
            directive,
            first,
            crate::log_filter::scan_to(directive, first, close),
            close,
        ));
        if closed is Split || closed is Rejected {
            lemma_stays(directive, first, close + 1, n);
        } else if close + 1 < n {
            let after = crate::log_filter::scan_to(directive, first, close + 2);
            assert(after == crate::log_filter::scan_step(directive, first, closed, close + 1));
            if after is Rejected {
                lemma_stays(directive, first, close + 2, n);
            } else {
                lemma_after_span(directive, first, close + 2);
            }
        }
    }
}

/// A text is sliceable by its directives: the first one must be, and what follows
/// its comma matters only where it is valid, or where there is nothing before the
/// comma.
pub proof fn law_directive_by_directive(directive: Seq<char>, rest: Seq<char>)
    requires
        forall|k: int| 0 <= k < directive.len() ==> #[trigger] directive[k] != ',',
    ensures
        directive.len() == 0 ==> crate::log_filter::sliceable(directive.push(',') + rest)
            == crate::log_filter::sliceable(rest),
        directive.len() > 0 ==> (crate::log_filter::sliceable(directive.push(',') + rest)
            <==> crate::log_filter::sliceable(directive) && (crate::log_filter::parsed_directives(
            directive,
        ) is Some ==> crate::log_filter::sliceable(rest))),
{
    let text = directive.push(',') + rest;
    crate::log_filter::lemma_comma_from(text, 0, directive.len());
    assert(text.take(directive.len() as int) =~= directive);
    assert(text.skip(directive.len() as int + 1) =~= rest);
    if directive.len() > 0 {
        crate::log_filter::lemma_one_directive(directive);
    }
}

} // verus!
