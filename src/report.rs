use unicode_width::UnicodeWidthStr;
use vstd::prelude::*;
use vstd::string::StringExecFns;

use crate::hook::Hook;
use crate::partition::blen;

verus! {

/// Status word of a hook that did not run.
pub const SKIPPED: &'static str = "Skipped";

/// Marker of a hook skipped because no file was selected for it.
pub const NO_FILES: &'static str = "(no files to check)";

/// Status word of a hook that passed.
pub const PASSED: &'static str = "Passed";

/// Status word of a hook that failed.
pub const FAILED: &'static str = "Failed";

/// Columns that a string takes on a terminal, East Asian ambiguous-width
/// characters counted as wide.
pub uninterp spec fn cjk_width(s: Seq<char>) -> nat;

/// Relies on unicode_width's `UnicodeWidthStr::width_cjk`: the display width of
/// `s` in a CJK context.
#[verifier::external_body]
fn display_width(s: &str) -> (r: usize)
    ensures
        r == cjk_width(s@),
{
    s.width_cjk()
}

/// `n` dots.
pub open spec fn dots(n: int) -> Seq<char> {
    Seq::new(if n < 0 {
        0
    } else {
        n
    } as nat, |i: int| '.')
}

fn push_dots(s: &mut String, n: usize)
    ensures
        final(s)@ == old(s)@ + dots(n as int),
{
    proof {
        reveal_strlit(".");
    }
    let mut i: usize = 0;
    while i < n
        invariant
            0 <= i <= n,
            s@ == old(s)@ + dots(i as int),
        decreases n - i,
    {
        let ghost before = s@;
        proof {
            reveal_strlit(".");
        }
        s.append(".");
        assert("."@ =~= seq!['.']);
        assert(dots(i + 1) =~= dots(i as int).push('.'));
        assert(s@ =~= before.push('.'));
        i = i + 1;
    }
}

/// `a - b`, or zero where `b` is larger.
pub open spec fn minus(a: int, b: int) -> int {
    if a > b {
        a - b
    } else {
        0
    }
}

/// A status line: `start`, dots up to `cols` columns, then `postfix` and
/// `end_msg`, for a `start` that is `start_width` columns wide. The dots fill
/// `cols` less `start_width`, the lengths of `end_msg` and `postfix` and one;
/// none where that leaves nothing.
pub fn layout_status_line(
    start: &str,
    start_width: usize,
    cols: usize,
    end_msg: &str,
    postfix: &str,
) -> (r: String)
    ensures
        r@ == start@ + dots(
            minus(cols as int, start_width + blen(end_msg@) + blen(postfix@) + 1),
        ) + postfix@ + end_msg@,
{
    let used = start_width.saturating_add(end_msg.len()).saturating_add(postfix.len()).saturating_add(
        1,
    );
    let n = cols.saturating_sub(used);
    assert(n == minus(cols as int, start_width + blen(end_msg@) + blen(postfix@) + 1));
    let mut r = String::from_str(start);
    push_dots(&mut r, n);
    r.append(postfix);
    r.append(end_msg);
    r
}

/// A status line laid out by the display width of `start`.
pub fn status_line(start: &str, cols: usize, end_msg: &str, postfix: &str) -> (r: String)
    ensures
        r@ == start@ + dots(
            minus(cols as int, cjk_width(start@) + blen(end_msg@) + blen(postfix@) + 1),
        ) + postfix@ + end_msg@,
{
    let w = display_width(start);
    layout_status_line(start, w, cols, end_msg, postfix)
}

/// The line of a hook that is skipped: by name, or for want of files.
pub fn skipped_line(name: &str, cols: usize, no_files: bool) -> (r: String)
    ensures
        no_files ==> r@ == name@ + dots(
            minus(cols as int, cjk_width(name@) + blen(SKIPPED@) + blen(NO_FILES@) + 1),
        ) + NO_FILES@ + SKIPPED@,
        !no_files ==> r@ == name@ + dots(minus(cols as int, cjk_width(name@) + blen(SKIPPED@) + 1))
            + SKIPPED@,
{
    if no_files {
        status_line(name, cols, SKIPPED, NO_FILES)
    } else {
        proof {
            reveal_strlit("");
        }
        let r = status_line(name, cols, SKIPPED, "");
        assert(blen(""@) == 0) by {
            assert(""@ =~= Seq::<char>::empty());
            assert(vstd::utf8::encode_utf8(Seq::<char>::empty()) =~= Seq::<u8>::empty());
        }
        assert(r@ == name@ + dots(minus(cols as int, cjk_width(name@) + blen(SKIPPED@) + 1))
            + SKIPPED@) by {
            assert(""@ =~= Seq::<char>::empty());
        }
        r
    }
}

/// The start of the line of a hook that runs, for a name `name_width` columns
/// wide: the name and dots up to the column where `Passed` or `Failed`
/// follows.
pub fn layout_running_line(name: &str, name_width: usize, cols: usize) -> (r: String)
    ensures
        r@ == name@ + dots(minus(cols as int, name_width + 7)),
{
    let n = cols.saturating_sub(name_width.saturating_add(7));
    let mut r = String::from_str(name);
    push_dots(&mut r, n);
    r
}

/// The start of the line of a hook that runs, laid out by the display width
/// of its name.
pub fn running_line(name: &str, cols: usize) -> (r: String)
    ensures
        r@ == name@ + dots(minus(cols as int, cjk_width(name@) as int + 7)),
{
    let w = display_width(name);
    layout_running_line(name, w, cols)
}

/// Largest of `widths`, zero for none.
pub open spec fn widest(widths: Seq<int>) -> int
    decreases widths.len(),
{
    if widths.len() == 0 {
        0
    } else {
        let rest = widest(widths.drop_last());
        if widths.last() > rest {
            widths.last()
        } else {
            rest
        }
    }
}

/// Display widths of the hooks' names.
pub open spec fn name_widths(hooks: Seq<Hook>) -> Seq<int> {
    hooks.map_values(|h: Hook| cjk_width(h.name@) as int)
}

/// Width of the status column for names `widths` columns wide: at least 80,
/// and room for the widest name with three dots, the no-files marker, a space
/// and the skipped word.
pub open spec fn columns_for(widths: Seq<int>) -> int {
    if widest(widths) + 30 < 80 {
        80
    } else if widest(widths) + 30 < usize::MAX {
        widest(widths) + 30
    } else {
        usize::MAX as int
    }
}

/// Width of the status column for names of the given display widths.
pub fn columns_for_widths(widths: &[usize]) -> (r: usize)
    ensures
        r == columns_for(widths@.map_values(|w: usize| w as int)),
{
    let ghost ws = widths@.map_values(|w: usize| w as int);
    let mut name_len: usize = 0;
    let mut i: usize = 0;
    while i < widths.len()
        invariant
            0 <= i <= widths.len(),
            ws == widths@.map_values(|w: usize| w as int),
            name_len == widest(ws.take(i as int)),
        decreases widths.len() - i,
    {
        assert(ws.take(i + 1).drop_last() == ws.take(i as int));
        if widths[i] > name_len {
            name_len = widths[i];
        }
        i = i + 1;
    }
    assert(ws.take(widths.len() as int) == ws);
    proof {
        reveal_strlit("Skipped");
        reveal_strlit("(no files to check)");
    }
    let needed = name_len.saturating_add(3).saturating_add(NO_FILES.len()).saturating_add(1)
        .saturating_add(SKIPPED.len());
    assert(needed == if widest(ws) + 30 < usize::MAX {
        widest(ws) + 30
    } else {
        usize::MAX as int
    }) by {
        assert(blen(NO_FILES@) == 19) by {
            reveal_with_fuel(vstd::utf8::encode_utf8, 20);
        }
        assert(blen(SKIPPED@) == 7) by {
            reveal_with_fuel(vstd::utf8::encode_utf8, 8);
        }
    }
    if needed < 80 {
        80
    } else {
        needed
    }
}

/// Width of the status column for `hooks`, by the display widths of their
/// names.
pub fn calculate_columns(hooks: &[Hook]) -> (r: usize)
    ensures
        r == columns_for(name_widths(hooks@)),
{
    let mut widths: Vec<usize> = Vec::new();
    let mut i: usize = 0;
    while i < hooks.len()
        invariant
            0 <= i <= hooks.len(),
            widths@.map_values(|w: usize| w as int) == name_widths(hooks@).take(i as int),
        decreases hooks.len() - i,
    {
        let w = display_width(hooks[i].name.as_str());
        widths.push(w);
        assert(widths@.map_values(|w: usize| w as int) == name_widths(hooks@).take(i as int).push(
            w as int,
        ));
        assert(name_widths(hooks@).take(i + 1) == name_widths(hooks@).take(i as int).push(
            w as int,
        ));
        i = i + 1;
    }
    assert(name_widths(hooks@).take(hooks.len() as int) == name_widths(hooks@));
    columns_for_widths(widths.as_slice())
}

/// What `String::from_utf8_lossy` makes of `bytes`.
pub uninterp spec fn lossy_utf8(bytes: Seq<u8>) -> Seq<char>;

/// Relies on std's `String::from_utf8_lossy`: the text of `bytes`, invalid
/// sequences replaced.
#[verifier::external_body]
fn decode_lossy(bytes: &[u8]) -> (r: String)
    ensures
        r@ == lossy_utf8(bytes@),
{
    String::from_utf8_lossy(bytes).into_owned()
}

/// What `textwrap::indent` makes of `text` with `prefix`.
pub uninterp spec fn indented(text: Seq<char>, prefix: Seq<char>) -> Seq<char>;

/// Relies on textwrap's `indent`: `prefix` put before each line, empty lines
/// taking it without its trailing whitespace.
#[verifier::external_body]
fn indent(text: &str, prefix: &str) -> (r: String)
    ensures
        r@ == indented(text@, prefix@),
{
    textwrap::indent(text, prefix)
}

/// ASCII whitespace as `u8::is_ascii_whitespace` counts it.
pub open spec fn ascii_space(b: u8) -> bool {
    b == 9 || b == 10 || b == 12 || b == 13 || b == 32
}

/// `b` without leading ASCII whitespace.
pub open spec fn trim_start(b: Seq<u8>) -> Seq<u8>
    decreases b.len(),
{
    if b.len() > 0 && ascii_space(b[0]) {
        trim_start(b.drop_first())
    } else {
        b
    }
}

/// `b` without trailing ASCII whitespace.
pub open spec fn trim_end(b: Seq<u8>) -> Seq<u8>
    decreases b.len(),
{
    if b.len() > 0 && ascii_space(b.last()) {
        trim_end(b.drop_last())
    } else {
        b
    }
}

/// `b` without leading or trailing ASCII whitespace.
pub open spec fn trimmed(b: Seq<u8>) -> Seq<u8> {
    trim_end(trim_start(b))
}

proof fn lemma_trim_start(b: Seq<u8>, i: int)
    requires
        0 <= i <= b.len(),
        forall|j: int| 0 <= j < i ==> ascii_space(#[trigger] b[j]),
    ensures
        trim_start(b) == trim_start(b.subrange(i, b.len() as int)),
    decreases i,
{
    if i > 0 {
        lemma_trim_start(b.drop_first(), i - 1);
        assert(b.drop_first().subrange(i - 1, b.drop_first().len() as int) == b.subrange(
            i,
            b.len() as int,
        ));
    } else {
        assert(b.subrange(0, b.len() as int) == b);
    }
}

proof fn lemma_trim_end(b: Seq<u8>, e: int)
    requires
        0 <= e <= b.len(),
        forall|j: int| e <= j < b.len() ==> ascii_space(#[trigger] b[j]),
    ensures
        trim_end(b) == trim_end(b.subrange(0, e)),
    decreases b.len() - e,
{
    if e < b.len() {
        lemma_trim_end(b.drop_last(), e);
        assert(b.drop_last().subrange(0, e) == b.subrange(0, e));
    } else {
        assert(b.subrange(0, e) == b);
    }
}

/// A hook's output without leading or trailing ASCII whitespace.
pub fn trim_output(output: &[u8]) -> (r: Vec<u8>)
    ensures
        r@ == trimmed(output@),
{
    let n = output.len();
    let mut start: usize = 0;
    while start < n && (output[start] == 9 || output[start] == 10 || output[start] == 12
        || output[start] == 13 || output[start] == 32)
        invariant
            n == output.len(),
            0 <= start <= n,
            forall|j: int| 0 <= j < start ==> ascii_space(#[trigger] output@[j]),
        decreases n - start,
    {
        start = start + 1;
    }
    let mut end: usize = n;
    while end > start && (output[end - 1] == 9 || output[end - 1] == 10 || output[end - 1] == 12
        || output[end - 1] == 13 || output[end - 1] == 32)
        invariant
            n == output.len(),
            0 <= start <= end <= n,
            forall|j: int| end <= j < n ==> ascii_space(#[trigger] output@[j]),
        decreases end,
    {
        end = end - 1;
    }
    let mut r: Vec<u8> = Vec::new();
    let mut i: usize = start;
    while i < end
        invariant
            n == output.len(),
            0 <= start <= i <= end <= n,
            r@ == output@.subrange(start as int, i as int),
        decreases end - i,
    {
        r.push(output[i]);
        assert(output@.subrange(start as int, i + 1) == output@.subrange(start as int, i as int).push(
            output@[i as int],
        ));
        i = i + 1;
    }
    proof {
        let s = output@;
        let rest = s.subrange(start as int, n as int);
        lemma_trim_start(s, start as int);
        assert(start < n ==> !ascii_space(s[start as int]));
        assert(trim_start(rest) == rest) by {
            if rest.len() > 0 {
                assert(rest[0] == s[start as int]);
            }
        }
        assert forall|j: int| end - start <= j < rest.len() implies ascii_space(#[trigger] rest[j]) by {
            assert(rest[j] == s[start + j]);
        }
        lemma_trim_end(rest, end - start);
        let kept = rest.subrange(0, end - start);
        assert(kept == s.subrange(start as int, end as int));
        assert(trim_end(kept) == kept) by {
            if kept.len() > 0 {
                assert(kept.last() == s[end - 1]);
            }
        }
    }
    r
}

/// The block that shows a hook's output: its trimmed text indented by two
/// spaces, or nothing where the output is blank.
pub fn output_block(output: &[u8]) -> (r: Option<String>)
    ensures
        trimmed(output@).len() == 0 ==> r is None,
        trimmed(output@).len() > 0 ==> (r matches Some(s) && s@ == indented(
            lossy_utf8(trimmed(output@)),
            "  "@,
        )),
{
    let text = trim_output(output);
    if text.len() == 0 {
        return None;
    }
    let decoded = decode_lossy(text.as_slice());
    Some(indent(decoded.as_str(), "  "))
}

} // verus!
