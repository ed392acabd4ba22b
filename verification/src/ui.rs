//! The state of the emulator's windows, and how the settings panel reads
//! the output of the system tools it runs.
use vstd::prelude::*;
use vstd::string::*;

verus! {

/// The tab shown in the emulator window.
#[derive(Debug, Clone, Copy, PartialEq, Eq, Structural)]
pub enum Tab {
    Receipt,
    Commands,
    Settings,
}

impl Default for Tab {
    /// The receipt tab.
    fn default() -> (tab: Self)
        ensures
            tab == Tab::Receipt,
    {
        Tab::Receipt
    }
}

/// Display options of the receipt view.
pub struct ReceiptViewer {
    pub show_paper_edges: bool,
    pub show_grid: bool,
}

impl Default for ReceiptViewer {
    /// Paper edges shown, grid hidden.
    fn default() -> (viewer: Self)
        ensures
            viewer.show_paper_edges,
            !viewer.show_grid,
    {
        Self { show_paper_edges: true, show_grid: false }
    }
}

impl ReceiptViewer {
    /// Paper edges shown, grid hidden.
    pub fn new() -> (viewer: Self)
        ensures
            viewer.show_paper_edges,
            !viewer.show_grid,
    {
        Self::default()
    }
}

/// The settings panel; it has no state of its own.
pub struct SettingsPanel {}

impl Default for SettingsPanel {
    /// The settings panel.
    fn default() -> (panel: Self) {
        Self {}
    }
}

/// The characters with the Unicode White_Space property, which `str::trim`
/// removes: U+0009 to U+000D, U+0020, U+0085, U+00A0, U+1680, U+2000 to
/// U+200A, U+2028, U+2029, U+202F, U+205F and U+3000.
pub open spec fn is_white_space(c: char) -> bool {
    let n = c as u32;
    ||| 0x09 <= n <= 0x0D
    ||| n == 0x20
    ||| n == 0x85
    ||| n == 0xA0
    ||| n == 0x1680
    ||| 0x2000 <= n <= 0x200A
    ||| n == 0x2028
    ||| n == 0x2029
    ||| n == 0x202F
    ||| n == 0x205F
    ||| n == 0x3000
}

/// The text without its leading white space.
pub open spec fn without_leading_white_space(text: Seq<char>) -> Seq<char>
    decreases text.len(),
{
    if text.len() > 0 && is_white_space(text[0]) {
        without_leading_white_space(text.drop_first())
    } else {
        text
    }
}

/// The text without its trailing white space.
pub open spec fn without_trailing_white_space(text: Seq<char>) -> Seq<char>
    decreases text.len(),
{
    if text.len() > 0 && is_white_space(text.last()) {
        without_trailing_white_space(text.drop_last())
    } else {
        text
    }
}

/// The text without leading and trailing white space.
pub open spec fn trimmed(text: Seq<char>) -> Seq<char> {
    without_trailing_white_space(without_leading_white_space(text))
}

/// Every character of the text is white space.
pub open spec fn all_white_space(text: Seq<char>) -> bool {
    forall|k: int| 0 <= k < text.len() ==> is_white_space(#[trigger] text[k])
}

proof fn lemma_leading_white_space(text: Seq<char>)
    ensures
        without_leading_white_space(text).len() == 0 <==> all_white_space(text),
        without_leading_white_space(text).len() > 0 ==> !is_white_space(without_leading_white_space(text)[0]),
    decreases text.len(),
{
    if text.len() > 0 && is_white_space(text[0]) {
        let rest = text.drop_first();
        lemma_leading_white_space(rest);
        if all_white_space(rest) {
            assert forall|k: int| 0 <= k < text.len() implies is_white_space(#[trigger] text[k]) by {
                if k > 0 {
                    assert(text[k] == rest[k - 1]);
                }
            }
        }
        if all_white_space(text) {
            assert forall|k: int| 0 <= k < rest.len() implies is_white_space(#[trigger] rest[k]) by {
                assert(rest[k] == text[k + 1]);
            }
        }
    } else if text.len() > 0 {
        assert(!is_white_space(text[0]));
    }
}

proof fn lemma_trailing_white_space(text: Seq<char>)
    ensures
        without_trailing_white_space(text).len() == 0 <==> all_white_space(text),
    decreases text.len(),
{
    if text.len() > 0 && is_white_space(text.last()) {
        let rest = text.drop_last();
        lemma_trailing_white_space(rest);
        if all_white_space(rest) {
            assert forall|k: int| 0 <= k < text.len() implies is_white_space(#[trigger] text[k]) by {
                if k < text.len() - 1 {
                    assert(text[k] == rest[k]);
                }
            }
        }
        if all_white_space(text) {
            assert forall|k: int| 0 <= k < rest.len() implies is_white_space(#[trigger] rest[k]) by {
                assert(rest[k] == text[k]);
            }
        }
    } else if text.len() > 0 {
        assert(!is_white_space(text[text.len() - 1]));
    }
}

/// Trimming leaves nothing exactly when the text is all white space.
pub proof fn lemma_trimmed_empty(text: Seq<char>)
    ensures
        trimmed(text).len() == 0 <==> all_white_space(text),
{
    let start = without_leading_white_space(text);
    lemma_leading_white_space(text);
    lemma_trailing_white_space(start);
    if start.len() > 0 {
        assert(!is_white_space(start[0]));
    }
}

/// Whether a character has the Unicode White_Space property.
pub fn is_white_space_char(c: char) -> (white: bool)
    ensures
        white == is_white_space(c),
{
    let n = c as u32;
    (0x09 <= n && n <= 0x0D) || n == 0x20 || n == 0x85 || n == 0xA0 || n == 0x1680 || (0x2000 <= n
        && n <= 0x200A) || n == 0x2028 || n == 0x2029 || n == 0x202F || n == 0x205F || n == 0x3000
}

/// The characters from `start` to `end` of a text, when the text trimmed of
/// white space (as `str::trim` does) is that span.
pub fn trimmed_bounds(text: &str) -> (bounds: (usize, usize))
    ensures
        bounds.0 <= bounds.1 <= text@.len(),
        text@.subrange(bounds.0 as int, bounds.1 as int) == trimmed(text@),
        forall|k: int| 0 <= k < bounds.0 ==> is_white_space(#[trigger] text@[k]),
        forall|k: int| bounds.1 <= k < text@.len() ==> is_white_space(#[trigger] text@[k]),
        bounds.0 < bounds.1 ==> !is_white_space(text@[bounds.0 as int]) && !is_white_space(text@[bounds.1 - 1]),
        bounds.0 == bounds.1 ==> all_white_space(text@),
{
    let n = text.unicode_len();
    let ghost whole = text@;
    let mut start: usize = 0;
    assert(whole.subrange(0, n as int) =~= whole);
    while start < n && is_white_space_char(text.get_char(start))
        invariant
            n == whole.len(),
            whole == text@,
            start <= n,
            without_leading_white_space(whole) == without_leading_white_space(whole.subrange(start as int, n as int)),
            forall|k: int| 0 <= k < start ==> is_white_space(#[trigger] whole[k]),
        decreases n - start,
    {
        let ghost rest = whole.subrange(start as int, n as int);
        assert(rest.drop_first() =~= whole.subrange(start + 1, n as int));
        start += 1;
    }
    let ghost front = whole.subrange(start as int, n as int);
    assert(without_leading_white_space(whole) == front) by {
        if start < n {
            assert(front[0] == whole[start as int]);
        } else {
            assert(front.len() == 0);
        }
    }
    let mut end: usize = n;
    assert(whole.subrange(start as int, end as int) == front);
    while end > start && is_white_space_char(text.get_char(end - 1))
        invariant
            n == whole.len(),
            whole == text@,
            start <= end <= n,
            front == whole.subrange(start as int, n as int),
            without_trailing_white_space(front) == without_trailing_white_space(whole.subrange(start as int, end as int)),
            forall|k: int| 0 <= k < start ==> is_white_space(#[trigger] whole[k]),
            forall|k: int| end <= k < n ==> is_white_space(#[trigger] whole[k]),
            start < n ==> !is_white_space(whole[start as int]),
        decreases end - start,
    {
        let ghost rest = whole.subrange(start as int, end as int);
        assert(rest.last() == whole[end - 1]);
        assert(rest.drop_last() =~= whole.subrange(start as int, end - 1));
        end -= 1;
    }
    let ghost back = whole.subrange(start as int, end as int);
    assert(without_trailing_white_space(front) == back) by {
        if end > start {
            assert(back.last() == whole[end - 1]);
        } else {
            assert(back.len() == 0);
        }
    }
    assert(start == end ==> all_white_space(whole)) by {
        if start == end {
            assert forall|k: int| 0 <= k < whole.len() implies is_white_space(#[trigger] whole[k]) by {
                if k < start {
                } else {
                }
            }
        }
    }
    (start, end)
}

/// The output of a system tool as it is shown: trimmed of white space, and
/// nothing when nothing but white space was printed.
pub fn trimmed_output(text: &str) -> (shown: Option<String>)
    ensures
        shown is Some <==> !all_white_space(text@),
        shown matches Some(s) ==> s@ == trimmed(text@),
{
    proof {
        lemma_trimmed_empty(text@);
    }
    let (start, end) = trimmed_bounds(text);
    if start < end {
        Some(text.substring_char(start, end).to_owned())
    } else {
        None
    }
}

/// What uninstalling the printer reports: the trimmed standard output and
/// the trimmed error output, each when there was more than white space.
pub fn uninstall_messages(stdout: &str, stderr: &str) -> (messages: (Option<String>, Option<String>))
    ensures
        messages.0 is Some <==> !all_white_space(stdout@),
        messages.0 matches Some(o) ==> o@ == trimmed(stdout@),
        messages.1 is Some <==> !all_white_space(stderr@),
        messages.1 matches Some(e) ==> e@ == trimmed(stderr@),
{
    (trimmed_output(stdout), trimmed_output(stderr))
}

/// The code of a character with ASCII upper case letters lowered.
pub open spec fn ascii_lower_code(c: char) -> u32 {
    if 65 <= c as u32 <= 90 {
        (c as u32 + 32) as u32
    } else {
        c as u32
    }
}

/// Two texts are equal when ASCII letters are compared without case.
pub open spec fn equal_ignoring_ascii_case(a: Seq<char>, b: Seq<char>) -> bool {
    &&& a.len() == b.len()
    &&& forall|k: int| 0 <= k < a.len() ==> ascii_lower_code(#[trigger] a[k]) == ascii_lower_code(b[k])
}

/// Comparing without ASCII case: two texts compare equal exactly when they
/// have the same length and, at every place, the same character or the
/// upper and lower case of one ASCII letter (`A`..`Z` against `a`..`z`).
pub proof fn lemma_equal_ignoring_ascii_case(a: Seq<char>, b: Seq<char>)
    ensures
        equal_ignoring_ascii_case(a, b) <==> {
            &&& a.len() == b.len()
            &&& forall|k: int|
                0 <= k < a.len() ==> {
                    let x = #[trigger] a[k] as u32;
                    let y = b[k] as u32;
                    ||| x == y
                    ||| 65 <= x <= 90 && y == x + 32
                    ||| 65 <= y <= 90 && x == y + 32
                }
        },
{
    assert forall|k: int| 0 <= k < a.len() && a.len() == b.len() implies (ascii_lower_code(#[trigger] a[k])
        == ascii_lower_code(b[k]) <==> {
        let x = a[k] as u32;
        let y = b[k] as u32;
        ||| x == y
        ||| 65 <= x <= 90 && y == x + 32
        ||| 65 <= y <= 90 && x == y + 32
    }) by {}
}

fn lower_code(c: char) -> (code: u32)
    ensures
        code == ascii_lower_code(c),
{
    let code = c as u32;
    if 65 <= code && code <= 90 {
        code + 32
    } else {
        code
    }
}

/// Whether the characters of `text` from `start` to `end` equal `other`
/// when ASCII letters are compared without case.
pub fn span_eq_ignore_ascii_case(text: &str, start: usize, end: usize, other: &str) -> (equal: bool)
    requires
        start <= end <= text@.len(),
    ensures
        equal == equal_ignoring_ascii_case(text@.subrange(start as int, end as int), other@),
{
    let ghost span = text@.subrange(start as int, end as int);
    let n = end - start;
    if n != other.unicode_len() {
        return false;
    }
    let mut k: usize = 0;
    while k < n
        invariant
            start <= end <= text@.len(),
            n == end - start,
            span == text@.subrange(start as int, end as int),
            n == other@.len(),
            k <= n,
            forall|j: int| 0 <= j < k ==> ascii_lower_code(#[trigger] span[j]) == ascii_lower_code(other@[j]),
        decreases n - k,
    {
        assert(span[k as int] == text@[start + k]);
        if lower_code(text.get_char(start + k)) != lower_code(other.get_char(k)) {
            return false;
        }
        k += 1;
    }
    true
}

/// Whether two texts are equal when ASCII letters are compared without case.
pub fn eq_ignore_ascii_case(a: &str, b: &str) -> (equal: bool)
    ensures
        equal == equal_ignoring_ascii_case(a@, b@),
{
    let n = a.unicode_len();
    assert(a@.subrange(0, n as int) =~= a@);
    span_eq_ignore_ascii_case(a, 0, n, b)
}

/// Whether the output of the printer status query names the virtual
/// printer: it does when anything but white space was printed.
pub fn reports_installed_printer(stdout: &str) -> (installed: bool)
    ensures
        installed == !all_white_space(stdout@),
{
    proof {
        lemma_trimmed_empty(stdout@);
    }
    let (start, end) = trimmed_bounds(stdout);
    start < end
}

/// Whether the output of the port test says that port 9100 is open: on
/// Windows the trimmed output is `true` in any case; elsewhere anything but
/// white space was printed.
pub fn reports_open_port(is_windows: bool, stdout: &str) -> (open: bool)
    ensures
        open == if is_windows {
            equal_ignoring_ascii_case(trimmed(stdout@), seq!['t', 'r', 'u', 'e'])
        } else {
            !all_white_space(stdout@)
        },
{
    proof {
        lemma_trimmed_empty(stdout@);
    }
    let (start, end) = trimmed_bounds(stdout);
    if is_windows {
        let expected = "true";
        proof {
            reveal_strlit("true");
        }
        span_eq_ignore_ascii_case(stdout, start, end, expected)
    } else {
        start < end
    }
}

} // verus!
