use std::collections::VecDeque;

use vstd::prelude::*;

use crate::chars::{ascii_fold, chars_eq_str, eq_ignore_ascii_case, eq_ignore_ascii_case_str};
use crate::mask::{Mask, Span};

verus! {

// ---------------------------------------------------------------------------
// Characters and character runs
// ---------------------------------------------------------------------------

/// Whether `char::is_alphabetic` holds of a character (the Unicode `Alphabetic` property).
pub uninterp spec fn char_is_alphabetic(c: char) -> bool;

/// Calls `char::is_alphabetic`. The contract says only that the answer is a
/// function of the character alone; the Unicode tables behind it are not stated.
#[verifier::external_body]
fn is_alphabetic(c: char) -> (res: bool)
    ensures
        res == char_is_alphabetic(c),
{
    c.is_alphabetic()
}

/// Number of consecutive alphabetic characters of `s` starting at position `i`.
pub open spec fn alphabetic_run(s: Seq<char>, i: int) -> nat
    decreases s.len() - i,
{
    if 0 <= i < s.len() && char_is_alphabetic(s[i]) {
        1 + alphabetic_run(s, i + 1)
    } else {
        0
    }
}

/// Number of consecutive characters of `s`, starting at position `i`, that differ from `stop`.
pub open spec fn run_before(s: Seq<char>, i: int, stop: char) -> nat
    decreases s.len() - i,
{
    if 0 <= i < s.len() && s[i] != stop {
        1 + run_before(s, i + 1, stop)
    } else {
        0
    }
}

proof fn lemma_alphabetic_run_bound(s: Seq<char>, i: int)
    requires
        0 <= i,
    ensures
        i < s.len() ==> i + alphabetic_run(s, i) <= s.len(),
        i >= s.len() ==> alphabetic_run(s, i) == 0,
    decreases s.len() - i,
{
    if 0 <= i < s.len() && char_is_alphabetic(s[i]) {
        lemma_alphabetic_run_bound(s, i + 1);
    }
}

/// The characters of `s[i .. i + run_before(s, i, stop)]` all differ from `stop`, and the
/// run ends at the end of `s` or at a `stop`.
pub proof fn lemma_run_before(s: Seq<char>, i: int, stop: char)
    requires
        0 <= i,
    ensures
        i < s.len() ==> i + run_before(s, i, stop) <= s.len(),
        i >= s.len() ==> run_before(s, i, stop) == 0,
        forall|j: int| i <= j < i + run_before(s, i, stop) ==> s[j] != stop,
        i + run_before(s, i, stop) < s.len() ==> s[i + run_before(s, i, stop)] == stop,
    decreases s.len() - i,
{
    if 0 <= i < s.len() && s[i] != stop {
        lemma_run_before(s, i + 1, stop);
    }
}

/// A run of alphabetic characters from `i` that ends at `e` (the end of `s`, or a
/// character that is not alphabetic) has length `e - i`.
proof fn lemma_alphabetic_run_exact(s: Seq<char>, i: int, e: int)
    requires
        0 <= i <= e <= s.len(),
        forall|k: int| i <= k < e ==> char_is_alphabetic(#[trigger] s[k]),
        e < s.len() ==> !char_is_alphabetic(s[e]),
    ensures
        alphabetic_run(s, i) == e - i,
    decreases e - i,
{
    if i < e {
        lemma_alphabetic_run_exact(s, i + 1, e);
    }
}

/// A run of characters other than `stop` from `i` that ends at `e` (the end of `s`, or a
/// `stop`) has length `e - i`.
proof fn lemma_run_before_exact(s: Seq<char>, i: int, e: int, stop: char)
    requires
        0 <= i <= e <= s.len(),
        forall|k: int| i <= k < e ==> #[trigger] s[k] != stop,
        e < s.len() ==> s[e] == stop,
    ensures
        run_before(s, i, stop) == e - i,
    decreases e - i,
{
    if i < e {
        lemma_run_before_exact(s, i + 1, e, stop);
    }
}

/// Count the alphabetic characters of `s` from `start` up to the first one that is not.
fn count_alphabetic(s: &[char], start: usize) -> (n: usize)
    ensures
        n == alphabetic_run(s@, start as int),
{
    let mut i: usize = start;
    while i < s.len()
        invariant
            start <= i,
            start < s@.len() ==> i <= s@.len(),
            alphabetic_run(s@, start as int) == (i - start) + alphabetic_run(s@, i as int),
        ensures
            alphabetic_run(s@, start as int) == (i - start) + alphabetic_run(s@, i as int),
            i >= s@.len() || !char_is_alphabetic(s@[i as int]),
        decreases s@.len() - i,
    {
        if !is_alphabetic(s[i]) {
            break;
        }
        i = i + 1;
    }
    i - start
}

/// Count the characters of `s` from `start` up to the first `stop`.
fn count_before(s: &[char], start: usize, stop: char) -> (n: usize)
    ensures
        n == run_before(s@, start as int, stop),
{
    let mut i: usize = start;
    while i < s.len()
        invariant
            start <= i,
            start < s@.len() ==> i <= s@.len(),
            run_before(s@, start as int, stop) == (i - start) + run_before(s@, i as int, stop),
        ensures
            run_before(s@, start as int, stop) == (i - start) + run_before(s@, i as int, stop),
            i >= s@.len() || s@[i as int] == stop,
        decreases s@.len() - i,
    {
        if s[i] == stop {
            break;
        }
        i = i + 1;
    }
    i - start
}

// ---------------------------------------------------------------------------
// Commands: `\name[square]{curly}`
// ---------------------------------------------------------------------------

/// The parts of a command at the start of a slice.
pub struct CommandComponents<'a> {
    /// The command's name.
    pub name: &'a [char],
    /// The content of the command's square bracket arguments.
    pub square_content: Option<&'a [char]>,
    /// The content of the command's curly bracket arguments.
    pub curly_content: Option<&'a [char]>,
}

/// The view of an optional slice.
pub open spec fn opt_view(o: Option<&[char]>) -> Option<Seq<char>> {
    match o {
        Some(x) => Some(x@),
        None => None,
    }
}

/// A one-character slice holding only a backslash: the one input on which
/// `deconstruct_command` cannot take the first character of a name.
pub open spec fn lone_backslash(t: Seq<char>) -> bool {
    t.len() == 1 && t[0] == '\\'
}

/// A command starts at the beginning of `t`.
pub open spec fn starts_command(t: Seq<char>) -> bool {
    t.len() > 0 && t[0] == '\\'
}

/// End (exclusive) of a command's name: the character after the backslash, then
/// every alphabetic character that follows it.
pub open spec fn name_end(t: Seq<char>) -> int {
    2 + alphabetic_run(t, 2) as int
}

/// The command's name: from just after the backslash to `name_end`.
pub open spec fn command_name(t: Seq<char>) -> Seq<char> {
    t.subrange(1, name_end(t))
}

/// Where the content of the square-bracket argument lies, if there is one.
pub open spec fn square_range(t: Seq<char>) -> Option<(int, int)> {
    let c = name_end(t);
    if c < t.len() && t[c] == '[' {
        Some((c + 1, c + 1 + run_before(t, c + 1, ']') as int))
    } else {
        None
    }
}

/// The position after the square-bracket argument (after its closing bracket).
pub open spec fn after_square(t: Seq<char>) -> int {
    match square_range(t) {
        Some(r) => r.1 + 1,
        None => name_end(t),
    }
}

/// Where the content of the curly-bracket argument lies, if there is one.
pub open spec fn curly_range(t: Seq<char>) -> Option<(int, int)> {
    let c = after_square(t);
    if c < t.len() && t[c] == '{' {
        Some((c + 1, c + 1 + run_before(t, c + 1, '}') as int))
    } else {
        None
    }
}

/// The characters in an optional range of `t`.
pub open spec fn range_content(t: Seq<char>, r: Option<(int, int)>) -> Option<Seq<char>> {
    match r {
        Some(r) => Some(t.subrange(r.0, r.1)),
        None => None,
    }
}

/// The content of the square-bracket argument of the command that `t` starts with.
pub open spec fn command_square(t: Seq<char>) -> Option<Seq<char>> {
    range_content(t, square_range(t))
}

/// The content of the curly-bracket argument of the command that `t` starts with.
pub open spec fn command_curly(t: Seq<char>) -> Option<Seq<char>> {
    range_content(t, curly_range(t))
}

/// The ranges of a command lie inside `t`, in order, and the argument contents
/// hold no closing bracket of their own kind.
pub proof fn lemma_command_layout(t: Seq<char>)
    requires
        starts_command(t),
        !lone_backslash(t),
    ensures
        1 < name_end(t) <= t.len(),
        square_range(t) matches Some(r) ==> {
            &&& name_end(t) < r.0 <= r.1 <= t.len()
            &&& t[r.0 - 1] == '['
            &&& forall|j: int| r.0 <= j < r.1 ==> t[j] != ']'
            &&& r.1 < t.len() ==> t[r.1] == ']'
        },
        curly_range(t) matches Some(r) ==> {
            &&& after_square(t) < r.0 <= r.1 <= t.len()
            &&& t[r.0 - 1] == '{'
            &&& forall|j: int| r.0 <= j < r.1 ==> t[j] != '}'
        },
        name_end(t) <= after_square(t) <= t.len() + 1,
{
    lemma_alphabetic_run_bound(t, 2);
    let c = name_end(t);
    if c < t.len() && t[c] == '[' {
        lemma_run_before(t, c + 1, ']');
    }
    let d = after_square(t);
    if d < t.len() && t[d] == '{' {
        lemma_run_before(t, d + 1, '}');
    }
}

/// Deconstruct a command into its constituent components.
/// Assumes the command is at the beginning of the slice.
/// Returns `None` if no command is present at the expected position.
pub fn deconstruct_command<'a>(source: &'a [char]) -> (res: Option<CommandComponents<'a>>)
    requires
        !lone_backslash(source@),
    ensures
        res is Some <==> starts_command(source@),
        res matches Some(c) ==> {
            &&& c.name@ == command_name(source@)
            &&& opt_view(c.square_content) == command_square(source@)
            &&& opt_view(c.curly_content) == command_curly(source@)
        },
{
    if source.len() == 0 || source[0] != '\\' {
        return None;
    }
    proof {
        lemma_command_layout(source@);
    }
    let ghost t = source@;
    let mut cursor: usize = 1;
    // The name of the command
    let name_len = count_alphabetic(source, cursor + 1);
    let name = &source[cursor..cursor + 1 + name_len];
    cursor = cursor + name_len + 1;
    assert(cursor == name_end(t));
    // The optional square brackets
    let mut square_content: Option<&'a [char]> = None;
    if cursor < source.len() && source[cursor] == '[' {
        cursor = cursor + 1;
        let brace_len = count_before(source, cursor, ']');
        square_content = Some(&source[cursor..cursor + brace_len]);
        // past the closing bracket; beyond the end when there is none
        cursor = cursor + brace_len;
        if cursor < source.len() {
            cursor = cursor + 1;
        } else {
            return Some(CommandComponents { name, square_content, curly_content: None });
        }
    }
    assert(cursor == after_square(t));
    // The optional curly brackets
    let mut curly_content: Option<&'a [char]> = None;
    if cursor < source.len() && source[cursor] == '{' {
        cursor = cursor + 1;
        let brace_len = count_before(source, cursor, '}');
        curly_content = Some(&source[cursor..cursor + brace_len]);
    }
    Some(CommandComponents { name, square_content, curly_content })
}


// ---------------------------------------------------------------------------
// What the masker finds at a cursor
// ---------------------------------------------------------------------------

/// A step of the masker's cursor.
#[derive(Debug, Clone, Copy, PartialEq, Eq, Structural)]
pub enum CursorAction {
    /// Move the cursor forward, keeping the text it passes.
    IncBy(usize),
    /// Allow the text since the last masked region, then move the cursor forward
    /// over text that is masked out.
    PushMaskAndIncBy(usize),
}

/// The view of an optional `usize` as an optional integer.
pub open spec fn opt_int(o: Option<usize>) -> Option<int> {
    match o {
        Some(n) => Some(n as int),
        None => None,
    }
}

/// Math mode at `cursor`: a `$` there, and the length of the block up to and including
/// the next `$` (the block ends with the text when there is no closing `$`, and the
/// length then counts one character past it).
pub open spec fn math_mode_at(s: Seq<char>, cursor: int) -> Option<int> {
    if 0 <= cursor < s.len() && s[cursor] == '$' {
        Some(run_before(s, cursor + 1, '$') + 2int)
    } else {
        None
    }
}

/// Check whether there is a math mode block at the current cursor. If so, this function
/// will return the amount the cursor needs to be incremented by in order to escape the block.
fn math_mode_at_cursor(cursor: usize, source: &[char]) -> (res: Option<usize>)
    requires
        source@.len() <= isize::MAX,
    ensures
        opt_int(res) == math_mode_at(source@, cursor as int),
        res matches Some(n) ==> {
            &&& source@[cursor as int] == '$'
            &&& forall|j: int| cursor < j < cursor + n - 1 ==> source@[j] != '$'
            &&& cursor + n - 1 < source@.len() ==> source@[cursor + n - 1] == '$'
        },
{
    if cursor >= source.len() || source[cursor] != '$' {
        return None;
    }
    proof {
        lemma_run_before(source@, cursor + 1, '$');
    }
    let count = count_before(source, cursor + 1, '$');
    Some(count + 2)
}

/// The commands whose curly-bracket content is prose to be checked.
pub open spec fn is_content_command(name: Seq<char>) -> bool {
    ||| name == "section"@
    ||| name == "title"@
    ||| name == "subsection"@
    ||| name == "subsubsection"@
    ||| name == "textbf"@
    ||| name == "textit"@
    ||| name == "emph"@
    ||| name == "author"@
    ||| name == "part"@
    ||| name == "chapter"@
    ||| name == "caption"@
}

fn is_content_command_name(name: &[char]) -> (res: bool)
    ensures
        res == is_content_command(name@),
{
    chars_eq_str(name, "section") || chars_eq_str(name, "title") || chars_eq_str(
        name,
        "subsection",
    ) || chars_eq_str(name, "subsubsection") || chars_eq_str(name, "textbf") || chars_eq_str(
        name,
        "textit",
    ) || chars_eq_str(name, "emph") || chars_eq_str(name, "author") || chars_eq_str(
        name,
        "part",
    ) || chars_eq_str(name, "chapter") || chars_eq_str(name, "caption")
}

/// Length of a command's backslash, name and square-bracket argument (with its brackets).
pub open spec fn command_diff(t: Seq<char>) -> int {
    1 + command_name(t).len() + match command_square(t) {
        Some(sc) => sc.len() + 2int,
        None => 0int,
    }
}

/// The actions the masker takes for the command that `t` starts with: a content command
/// has its name masked, its curly content kept and its closing brace masked; any other
/// command is masked whole.
pub open spec fn command_actions(t: Seq<char>) -> Seq<CursorAction> {
    if !starts_command(t) {
        Seq::empty()
    } else {
        let diff = command_diff(t);
        match command_curly(t) {
            Some(cc) => if is_content_command(command_name(t)) {
                seq![
                    CursorAction::PushMaskAndIncBy((diff + 1) as usize),
                    CursorAction::IncBy(cc.len() as usize),
                    CursorAction::PushMaskAndIncBy(1),
                ]
            } else {
                seq![CursorAction::PushMaskAndIncBy((cc.len() + diff + 1) as usize)]
            },
            None => seq![CursorAction::PushMaskAndIncBy(diff as usize)],
        }
    }
}

/// Bounds on the lengths that a command's actions carry.
proof fn lemma_command_diff_bound(t: Seq<char>)
    requires
        starts_command(t),
        !lone_backslash(t),
    ensures
        2 <= command_diff(t) <= t.len() + 1,
        command_curly(t) matches Some(cc) ==> command_diff(t) + cc.len() + 1 <= t.len() + 1,
{
    lemma_command_layout(t);
}

/// Check whether there is a command at the current cursor. If so, this function will
/// update the action queue to mask out the hidden elements.
/// Returns whether the action queue was modified.
fn command_at_cursor(cursor: usize, source: &[char], actions: &mut VecDeque<CursorAction>) -> (res:
    bool)
    requires
        cursor <= source@.len() <= isize::MAX,
        !lone_backslash(source@.subrange(cursor as int, source@.len() as int)),
    ensures
        res == starts_command(source@.subrange(cursor as int, source@.len() as int)),
        final(actions)@ == old(actions)@ + command_actions(
            source@.subrange(cursor as int, source@.len() as int),
        ),
        res == (final(actions)@.len() > old(actions)@.len()),
{
    let ghost t = source@.subrange(cursor as int, source@.len() as int);
    let comps = deconstruct_command(&source[cursor..source.len()]);
    match comps {
        None => {
            assert(actions@ == old(actions)@ + command_actions(t));
            false
        },
        Some(c) => {
            proof {
                lemma_command_diff_bound(t);
            }
            let is_content_command = is_content_command_name(c.name);
            let diff = 1 + c.name.len() + match c.square_content {
                Some(sc) => sc.len() + 2,
                None => 0,
            };
            assert(diff == command_diff(t));
            match c.curly_content {
                Some(curly_content) => {
                    if is_content_command {
                        actions.push_back(CursorAction::PushMaskAndIncBy(diff + 1));
                        actions.push_back(CursorAction::IncBy(curly_content.len()));
                        actions.push_back(CursorAction::PushMaskAndIncBy(1));
                    } else {
                        actions.push_back(
                            CursorAction::PushMaskAndIncBy(curly_content.len() + diff + 1),
                        );
                    }
                },
                None => {
                    actions.push_back(CursorAction::PushMaskAndIncBy(diff));
                },
            }
            assert(actions@ =~= old(actions)@ + command_actions(t));
            true
        },
    }
}

/// `t` starts with the command `\<keyword>{equation}` (name and argument compared up to
/// ASCII case).
pub open spec fn is_equation_command(t: Seq<char>, keyword: Seq<char>) -> bool {
    &&& starts_command(t)
    &&& eq_ignore_ascii_case(command_name(t), keyword)
    &&& command_curly(t) is Some
    &&& eq_ignore_ascii_case(command_curly(t)->0, "equation"@)
}

/// `t` starts with `\begin{equation}`.
pub open spec fn begins_equation(t: Seq<char>) -> bool {
    is_equation_command(t, "begin"@)
}

/// `t` starts with `\end{equation}`.
pub open spec fn ends_equation(t: Seq<char>) -> bool {
    is_equation_command(t, "end"@)
}

/// Where the search for the end of an equation starts, relative to its `\begin`: one
/// past the backslash, the name, the curly content and the square content (the brackets
/// themselves are not counted).
pub open spec fn equation_search_offset(t: Seq<char>) -> int {
    1 + command_name(t).len() + (command_curly(t)->0).len() + match command_square(t) {
        Some(sc) => sc.len() as int,
        None => 0int,
    }
}

/// The first position at or after `k` where `\end{equation}` starts. `None` when the
/// search runs past the end of `s`, or meets a backslash that is the last character.
pub open spec fn equation_end_from(s: Seq<char>, k: int) -> Option<int>
    decreases s.len() + 1 - k,
{
    if k < 0 || k > s.len() {
        None
    } else if lone_backslash(s.subrange(k, s.len() as int)) {
        None
    } else if ends_equation(s.subrange(k, s.len() as int)) {
        Some(k)
    } else {
        equation_end_from(s, k + 1)
    }
}

/// What `equation_at_cursor` returns: for `\begin{equation}` at `cursor`, the distance
/// to the `\end{equation}` that closes it.
pub open spec fn equation_at(s: Seq<char>, cursor: int) -> Option<int> {
    let t = s.subrange(cursor, s.len() as int);
    if begins_equation(t) {
        match equation_end_from(s, cursor + equation_search_offset(t)) {
            Some(k) => Some(k - cursor),
            None => None,
        }
    } else {
        None
    }
}

/// The inputs on which looking for an equation at `cursor` cannot finish: a lone
/// backslash there, or a `\begin{equation}` that no `\end{equation}` closes.
pub open spec fn equation_panics(s: Seq<char>, cursor: int) -> bool {
    let t = s.subrange(cursor, s.len() as int);
    ||| lone_backslash(t)
    ||| (begins_equation(t) && equation_end_from(s, cursor + equation_search_offset(t)) is None)
}

/// The end found by `equation_end_from` is the first `\end{equation}` from `k` on.
pub proof fn lemma_equation_end_from(s: Seq<char>, k: int)
    ensures
        equation_end_from(s, k) matches Some(e) ==> {
            &&& 0 <= k <= e <= s.len()
            &&& ends_equation(s.subrange(e, s.len() as int))
            &&& forall|j: int|
                k <= j < e ==> !ends_equation(#[trigger] s.subrange(j, s.len() as int))
        },
    decreases s.len() + 1 - k,
{
    if 0 <= k <= s.len() && !lone_backslash(s.subrange(k, s.len() as int)) && !ends_equation(
        s.subrange(k, s.len() as int),
    ) {
        lemma_equation_end_from(s, k + 1);
    }
}

fn is_equation_command_exec(c: &CommandComponents, keyword: &str) -> (res: bool)
    ensures
        res == {
            &&& eq_ignore_ascii_case(c.name@, keyword@)
            &&& c.curly_content is Some
            &&& eq_ignore_ascii_case((c.curly_content->0)@, "equation"@)
        },
{
    if !eq_ignore_ascii_case_str(c.name, keyword) {
        return false;
    }
    match c.curly_content {
        Some(cc) => eq_ignore_ascii_case_str(cc, "equation"),
        None => false,
    }
}

/// For `\begin{equation}` at the cursor, the distance to the matching `\end{equation}`.
fn equation_at_cursor(cursor: usize, source: &[char]) -> (res: Option<usize>)
    requires
        cursor <= source@.len() <= isize::MAX,
        !equation_panics(source@, cursor as int),
    ensures
        opt_int(res) == equation_at(source@, cursor as int),
        res matches Some(d) ==> {
            let t = source@.subrange(cursor as int, source@.len() as int);
            &&& ends_equation(source@.subrange(cursor + d, source@.len() as int))
            &&& equation_search_offset(t) <= d
            &&& forall|j: int|
                cursor + equation_search_offset(t) <= j < cursor + d ==> !ends_equation(
                    #[trigger] source@.subrange(j, source@.len() as int),
                )
        },
{
    let ghost s = source@;
    let ghost t = source@.subrange(cursor as int, source@.len() as int);
    let comps = deconstruct_command(&source[cursor..source.len()]);
    match comps {
        None => None,
        Some(c) => {
            if !is_equation_command_exec(&c, "begin") {
                return None;
            }
            proof {
                lemma_command_layout(t);
            }
            let curly_len = match c.curly_content {
                Some(cc) => cc.len(),
                None => 0,
            };
            let square_len = match c.square_content {
                Some(sc) => sc.len(),
                None => 0,
            };
            let mut diff: usize = 1 + c.name.len() + curly_len + square_len;
            let ghost start = cursor + diff;
            assert(start == cursor + equation_search_offset(t));
            proof {
                lemma_equation_end_from(s, start);
            }
            let ghost end = equation_end_from(s, start)->0;
            loop
                invariant
                    cursor as int + equation_search_offset(t) <= cursor + diff <= end,
                    start == cursor + equation_search_offset(t),
                    end <= s.len(),
                    s == source@,
                    s.len() <= isize::MAX,
                    equation_end_from(s, cursor + diff) == Some(end),
                    equation_end_from(s, start) == Some(end),
                ensures
                    cursor + diff == end,
                decreases end - (cursor + diff),
            {
                let sub = &source[cursor + diff..source.len()];
                let found = match deconstruct_command(sub) {
                    Some(d) => is_equation_command_exec(&d, "end"),
                    None => false,
                };
                assert(found == ends_equation(s.subrange(cursor + diff, s.len() as int)));
                if found {
                    break;
                }
                proof {
                    lemma_equation_end_from(s, cursor + diff + 1);
                }
                diff = diff + 1;
            }
            Some(diff)
        },
    }
}


/// Whether the search for the end of an equation at `cursor` cannot finish (see
/// `equation_panics`).
fn equation_search_fails(cursor: usize, source: &[char]) -> (res: bool)
    requires
        cursor <= source@.len() <= isize::MAX,
    ensures
        res == equation_panics(source@, cursor as int),
{
    let ghost s = source@;
    let ghost t = source@.subrange(cursor as int, source@.len() as int);
    let sub = &source[cursor..source.len()];
    if sub.len() == 1 && sub[0] == '\\' {
        return true;
    }
    let c = match deconstruct_command(sub) {
        None => {
            return false;
        },
        Some(c) => c,
    };
    if !is_equation_command_exec(&c, "begin") {
        return false;
    }
    proof {
        lemma_command_layout(t);
    }
    let curly_len = match c.curly_content {
        Some(cc) => cc.len(),
        None => 0,
    };
    let square_len = match c.square_content {
        Some(sc) => sc.len(),
        None => 0,
    };
    let mut k: usize = cursor + 1 + c.name.len() + curly_len + square_len;
    let ghost start = k as int;
    assert(start == cursor + equation_search_offset(t));
    while k <= source.len()
        invariant
            start <= k <= s.len() + 1,
            s == source@,
            s.len() <= isize::MAX,
            equation_end_from(s, start) == equation_end_from(s, k as int),
            t == s.subrange(cursor as int, s.len() as int),
            begins_equation(t),
            !lone_backslash(t),
            start == cursor + equation_search_offset(t),
        decreases s.len() + 1 - k,
    {
        let rest = &source[k..source.len()];
        assert(rest@ == s.subrange(k as int, s.len() as int));
        if rest.len() == 1 && rest[0] == '\\' {
            assert(equation_end_from(s, k as int) is None);
            return true;
        }
        let found = match deconstruct_command(rest) {
            Some(d) => is_equation_command_exec(&d, "end"),
            None => false,
        };
        if found {
            assert(equation_end_from(s, k as int) == Some(k as int));
            return false;
        }
        assert(equation_end_from(s, k as int) == equation_end_from(s, k + 1));
        k = k + 1;
    }
    assert(equation_end_from(s, k as int) is None);
    true
}

// ---------------------------------------------------------------------------
// The masker's scan
// ---------------------------------------------------------------------------

/// The scan's state: cursor, start of the text not yet allowed or masked, and the
/// spans allowed so far.
pub type ScanState = (int, int, Seq<Span>);

pub open spec fn min_int(a: int, b: int) -> int {
    if a <= b {
        a
    } else {
        b
    }
}

/// The span from the mask start to the cursor, pushed when it is not empty.
pub open spec fn flush(st: ScanState) -> Seq<Span> {
    if st.1 != st.0 {
        st.2.push(Span { start: st.1 as usize, end: st.0 as usize })
    } else {
        st.2
    }
}

/// The effect of one action on the scan's state, in a text of `len` characters.
pub open spec fn apply_action(len: int, st: ScanState, a: CursorAction) -> ScanState {
    match a {
        CursorAction::IncBy(n) => (min_int(st.0 + n, len), st.1, st.2),
        CursorAction::PushMaskAndIncBy(n) => {
            let c = min_int(st.0 + n, len);
            (c, c, flush(st))
        },
    }
}

/// The effect of a queue of actions, taken from the front.
pub open spec fn apply_actions(len: int, st: ScanState, acts: Seq<CursorAction>) -> ScanState
    decreases acts.len(),
{
    if acts.len() == 0 {
        st
    } else {
        apply_actions(len, apply_action(len, st, acts[0]), acts.drop_first())
    }
}

/// The actions that the masker queues at `cursor`: one masked character for a comment
/// sign, the math block, the equation, the command, or else one kept character.
pub open spec fn step_actions(s: Seq<char>, c: int) -> Seq<CursorAction> {
    let t = s.subrange(c, s.len() as int);
    if s[c] == '%' {
        seq![CursorAction::PushMaskAndIncBy(1)]
    } else if math_mode_at(s, c) is Some {
        seq![CursorAction::PushMaskAndIncBy((math_mode_at(s, c)->0) as usize)]
    } else if equation_at(s, c) is Some {
        seq![CursorAction::PushMaskAndIncBy((equation_at(s, c)->0) as usize)]
    } else if starts_command(t) {
        command_actions(t)
    } else {
        seq![CursorAction::IncBy(1)]
    }
}

/// The inputs on which the masker cannot take a step at `c` (see `equation_panics`).
pub open spec fn step_panics(s: Seq<char>, c: int) -> bool {
    &&& s[c] != '%'
    &&& math_mode_at(s, c) is None
    &&& equation_panics(s, c)
}

/// The masker's scan from a state to the end of the text: the allowed spans, or `None`
/// when a step on the way cannot be taken.
pub open spec fn scan_from(s: Seq<char>, st: ScanState) -> Option<Seq<Span>>
    decreases s.len() - st.0,
    when 0 <= st.0 && s.len() <= isize::MAX
    via scan_from_decreases
{
    if st.0 >= s.len() {
        Some(flush(st))
    } else if step_panics(s, st.0) {
        None
    } else {
        scan_from(s, apply_actions(s.len() as int, st, step_actions(s, st.0)))
    }
}

#[via_fn]
proof fn scan_from_decreases(s: Seq<char>, st: ScanState) {
    if 0 <= st.0 < s.len() && s.len() <= isize::MAX && !step_panics(s, st.0) {
        lemma_step_progress(s, st);
    }
}

/// The allowed spans of the mask that the masker makes of `s`, or `None` when it cannot
/// finish (a backslash as the last character of the text, or an unclosed
/// `\begin{equation}`, where the scan reaches them).
pub open spec fn mask_of(s: Seq<char>) -> Option<Seq<Span>> {
    scan_from(s, (0, 0, Seq::empty()))
}

/// Every action that masks carries a positive length.
pub open spec fn masks_advance(acts: Seq<CursorAction>) -> bool {
    forall|i: int|
        0 <= i < acts.len() ==> match #[trigger] acts[i] {
            CursorAction::PushMaskAndIncBy(n) => n >= 1,
            CursorAction::IncBy(_) => true,
        }
}

/// The first action advances the cursor.
pub open spec fn first_advances(acts: Seq<CursorAction>) -> bool {
    acts.len() > 0 && match acts[0] {
        CursorAction::PushMaskAndIncBy(n) => n >= 1,
        CursorAction::IncBy(n) => n >= 1,
    }
}

/// The actions of a step: each masking action carries a positive length, and the first
/// action moves the cursor.
proof fn lemma_step_actions(s: Seq<char>, c: int)
    requires
        0 <= c < s.len() <= isize::MAX,
        !step_panics(s, c),
    ensures
        masks_advance(step_actions(s, c)),
        first_advances(step_actions(s, c)),
{
    let t = s.subrange(c, s.len() as int);
    let acts = step_actions(s, c);
    if s[c] == '%' {
    } else if math_mode_at(s, c) is Some {
        lemma_run_before(s, c + 1, '$');
    } else if equation_at(s, c) is Some {
        lemma_command_layout(t);
        lemma_equation_end_from(s, c + equation_search_offset(t));
    } else if starts_command(t) {
        lemma_command_diff_bound(t);
    }
}

/// Actions never move the cursor backwards or past the end, and the mask start never
/// passes the cursor.
proof fn lemma_apply_actions_monotone(len: int, st: ScanState, acts: Seq<CursorAction>)
    requires
        0 <= st.0 <= len,
    ensures
        st.0 <= apply_actions(len, st, acts).0 <= len,
    decreases acts.len(),
{
    if acts.len() > 0 {
        lemma_apply_actions_monotone(len, apply_action(len, st, acts[0]), acts.drop_first());
    }
}

/// A step moves the cursor forward.
proof fn lemma_step_progress(s: Seq<char>, st: ScanState)
    requires
        0 <= st.0 < s.len() <= isize::MAX,
        !step_panics(s, st.0),
    ensures
        st.0 < apply_actions(s.len() as int, st, step_actions(s, st.0)).0 <= s.len(),
{
    let acts = step_actions(s, st.0);
    lemma_step_actions(s, st.0);
    let len = s.len() as int;
    let st1 = apply_action(len, st, acts[0]);
    assert(st.0 < st1.0 <= len);
    lemma_apply_actions_monotone(len, st1, acts.drop_first());
}


/// `min(cursor + n, len)`, computed without overflow.
fn advance(cursor: usize, n: usize, len: usize) -> (r: usize)
    requires
        cursor <= len,
    ensures
        r == min_int(cursor + n, len as int),
{
    if n >= len - cursor {
        len
    } else {
        cursor + n
    }
}

// ---------------------------------------------------------------------------
// The masker
// ---------------------------------------------------------------------------

/// Masks out the parts of a TeX/LaTeX document that are not prose: comment signs,
/// math mode, equations and commands (keeping the argument of sectioning and
/// emphasis commands).
#[derive(Debug)]
pub struct Masker {}

impl Default for Masker {
    fn default() -> (masker: Self)
        ensures
            masker == (Masker {}),
    {
        Masker {}
    }
}

impl Masker {
    /// The scan behind `create_mask`, which stops with `None` where a step cannot be taken.
    fn scan(&self, source: &[char]) -> (res: Option<Mask>)
        requires
            source@.len() <= isize::MAX,
        ensures
            res is Some <==> mask_of(source@) is Some,
            res matches Some(m) ==> m@ == mask_of(source@)->0,
    {
        let ghost s = source@;
        let mut cursor: usize = 0;
        let mut mask = Mask::new_blank();
        let mut cur_mask_start: usize = 0;
        let mut actions: VecDeque<CursorAction> = VecDeque::new();
        loop
            invariant
                s == source@,
                s.len() <= isize::MAX,
                cursor <= s.len(),
                actions@ == Seq::<CursorAction>::empty(),
                scan_from(s, (cursor as int, cur_mask_start as int, mask@)) == mask_of(s),
            ensures
                cursor == s.len(),
                scan_from(s, (cursor as int, cur_mask_start as int, mask@)) == mask_of(s),
            decreases s.len() - cursor,
        {
            if cursor >= source.len() {
                break;
            }
            let ghost st0: ScanState = (cursor as int, cur_mask_start as int, mask@);
            let c = source[cursor];
            if c == '%' {
                actions.push_back(CursorAction::PushMaskAndIncBy(1));
            } else {
                match math_mode_at_cursor(cursor, source) {
                    Some(n) => {
                        actions.push_back(CursorAction::PushMaskAndIncBy(n));
                    },
                    None => {
                        if equation_search_fails(cursor, source) {
                            assert(step_panics(s, cursor as int));
                            return None;
                        }
                        match equation_at_cursor(cursor, source) {
                            Some(n) => {
                                actions.push_back(CursorAction::PushMaskAndIncBy(n));
                            },
                            None => {
                                if !command_at_cursor(cursor, source, &mut actions) {
                                    actions.push_back(CursorAction::IncBy(1));
                                }
                            },
                        }
                    },
                }
            }
            assert(!step_panics(s, cursor as int));
            assert(actions@ =~= step_actions(s, cursor as int));
            let ghost all = actions@;
            proof {
                lemma_step_progress(s, st0);
            }
            loop
                invariant
                    s == source@,
                    s.len() <= isize::MAX,
                    cursor <= s.len(),
                    apply_actions(
                        s.len() as int,
                        (cursor as int, cur_mask_start as int, mask@),
                        actions@,
                    ) == apply_actions(s.len() as int, st0, all),
                ensures
                    cursor <= s.len(),
                    actions@ == Seq::<CursorAction>::empty(),
                    (cursor as int, cur_mask_start as int, mask@) == apply_actions(
                        s.len() as int,
                        st0,
                        all,
                    ),
                decreases actions@.len(),
            {
                let ghost before: ScanState = (cursor as int, cur_mask_start as int, mask@);
                let ghost queue = actions@;
                match actions.pop_front() {
                    None => {
                        break;
                    },
                    Some(action) => {
                        assert(actions@ == queue.drop_first());
                        match action {
                            CursorAction::IncBy(n) => {
                                cursor = advance(cursor, n, source.len());
                            },
                            CursorAction::PushMaskAndIncBy(n) => {
                                if cur_mask_start != cursor {
                                    mask.push_allowed(Span::new(cur_mask_start, cursor));
                                }
                                let next = advance(cursor, n, source.len());
                                cursor = next;
                                cur_mask_start = next;
                            },
                        }
                        assert((cursor as int, cur_mask_start as int, mask@) == apply_action(
                            s.len() as int,
                            before,
                            queue[0],
                        ));
                    },
                }
            }
        }
        if cur_mask_start != cursor {
            mask.push_allowed(Span::new(cur_mask_start, cursor));
        }
        Some(mask)
    }

    /// The mask of a document: the allowed spans are the text outside comment signs,
    /// math mode, equations and commands.
    pub fn create_mask(&self, source: &[char]) -> (mask: Mask)
        requires
            source@.len() <= isize::MAX,
            mask_of(source@) is Some,
        ensures
            mask@ == mask_of(source@)->0,
    {
        match self.scan(source) {
            Some(mask) => mask,
            None => Mask::new_blank(),
        }
    }

    /// `create_mask` for any document: `None` exactly where `create_mask` cannot finish
    /// (a backslash as the last character, or an unclosed `\begin{equation}`, that the
    /// scan reaches).
    pub fn try_create_mask(&self, source: &[char]) -> (res: Option<Mask>)
        requires
            source@.len() <= isize::MAX,
        ensures
            res is Some <==> mask_of(source@) is Some,
            res matches Some(m) ==> m@ == mask_of(source@)->0,
    {
        self.scan(source)
    }
}


// ---------------------------------------------------------------------------
// Properties of the mask
// ---------------------------------------------------------------------------

/// Allowed spans are non-empty, lie inside a text of `len` characters, come in order,
/// and are separated by at least one masked character.
pub open spec fn mask_well_formed(spans: Seq<Span>, len: int) -> bool {
    &&& forall|i: int|
        0 <= i < spans.len() ==> (#[trigger] spans[i]).start < spans[i].end <= len
    &&& forall|i: int, j: int|
        0 <= i < j < spans.len() ==> (#[trigger] spans[i]).end < (#[trigger] spans[j]).start
}

/// What holds of every state the scan passes through.
pub open spec fn scan_state_ok(st: ScanState, len: int) -> bool {
    &&& 0 <= st.1 <= st.0 <= len
    &&& mask_well_formed(st.2, len)
    &&& st.2.len() > 0 ==> {
        ||| st.2.last().end < st.1
        ||| (st.2.last().end == len && st.1 == len)
    }
}

proof fn lemma_flush_ok(st: ScanState, len: int)
    requires
        scan_state_ok(st, len),
        len <= isize::MAX,
    ensures
        mask_well_formed(flush(st), len),
        flush(st).len() > 0 ==> flush(st).last().end <= st.0,
{
    if st.1 != st.0 {
        let spans = flush(st);
        assert forall|i: int, j: int| 0 <= i < j < spans.len() implies (#[trigger] spans[i]).end
            < (#[trigger] spans[j]).start by {
            if j == spans.len() - 1 && i < j {
                if i < st.2.len() - 1 {
                    assert(st.2[i].end < st.2[st.2.len() - 1].start);
                }
            }
        }
    }
}

proof fn lemma_apply_action_ok(len: int, st: ScanState, a: CursorAction)
    requires
        scan_state_ok(st, len),
        len <= isize::MAX,
        match a {
            CursorAction::PushMaskAndIncBy(n) => n >= 1,
            CursorAction::IncBy(_) => true,
        },
    ensures
        scan_state_ok(apply_action(len, st, a), len),
{
    match a {
        CursorAction::IncBy(n) => {},
        CursorAction::PushMaskAndIncBy(n) => {
            lemma_flush_ok(st, len);
        },
    }
}

proof fn lemma_apply_actions_ok(len: int, st: ScanState, acts: Seq<CursorAction>)
    requires
        scan_state_ok(st, len),
        len <= isize::MAX,
        masks_advance(acts),
    ensures
        scan_state_ok(apply_actions(len, st, acts), len),
    decreases acts.len(),
{
    if acts.len() > 0 {
        assert(match acts[0] {
            CursorAction::PushMaskAndIncBy(n) => n >= 1,
            CursorAction::IncBy(_) => true,
        });
        lemma_apply_action_ok(len, st, acts[0]);
        let rest = acts.drop_first();
        assert forall|i: int| 0 <= i < rest.len() implies match #[trigger] rest[i] {
            CursorAction::PushMaskAndIncBy(n) => n >= 1,
            CursorAction::IncBy(_) => true,
        } by {
            assert(rest[i] == acts[i + 1]);
        }
        lemma_apply_actions_ok(len, apply_action(len, st, acts[0]), rest);
    }
}

proof fn lemma_scan_from_ok(s: Seq<char>, st: ScanState)
    requires
        s.len() <= isize::MAX,
        scan_state_ok(st, s.len() as int),
    ensures
        scan_from(s, st) matches Some(spans) ==> mask_well_formed(spans, s.len() as int),
    decreases s.len() - st.0,
{
    if st.0 >= s.len() {
        lemma_flush_ok(st, s.len() as int);
    } else if !step_panics(s, st.0) {
        lemma_step_actions(s, st.0);
        lemma_step_progress(s, st);
        lemma_apply_actions_ok(s.len() as int, st, step_actions(s, st.0));
        lemma_scan_from_ok(s, apply_actions(s.len() as int, st, step_actions(s, st.0)));
    }
}

/// The mask the masker makes is well formed: its allowed spans are non-empty, lie inside
/// the text, come in order and are separated by masked text.
pub proof fn mask_is_well_formed(s: Seq<char>)
    requires
        s.len() <= isize::MAX,
        mask_of(s) is Some,
    ensures
        mask_well_formed(mask_of(s)->0, s.len() as int),
{
    lemma_scan_from_ok(s, (0, 0, Seq::empty()));
}

/// Neither a comment sign, a dollar nor a backslash.
pub open spec fn is_plain_char(c: char) -> bool {
    c != '%' && c != '$' && c != '\\'
}

/// No comment sign, dollar or backslash.
pub open spec fn is_plain_text(s: Seq<char>) -> bool {
    forall|i: int| 0 <= i < s.len() ==> is_plain_char(#[trigger] s[i])
}

/// Over plain characters the scan moves one character at a time and changes nothing else.
proof fn lemma_scan_plain_run(s: Seq<char>, st: ScanState, e: int)
    requires
        s.len() <= isize::MAX,
        0 <= st.0 <= e <= s.len(),
        forall|i: int| st.0 <= i < e ==> is_plain_char(#[trigger] s[i]),
    ensures
        scan_from(s, st) == scan_from(s, (e, st.1, st.2)),
    decreases e - st.0,
{
    let c = st.0;
    if c < e {
        let t = s.subrange(c, s.len() as int);
        assert(is_plain_char(s[c]));
        assert(t[0] == s[c]);
        assert(step_actions(s, c) == seq![CursorAction::IncBy(1)]);
        let next = apply_actions(s.len() as int, st, step_actions(s, c));
        assert(next == apply_action(s.len() as int, st, CursorAction::IncBy(1))) by {
            reveal_with_fuel(apply_actions, 2);
        }
        lemma_scan_plain_run(s, (c + 1, st.1, st.2), e);
    }
}

/// Text without comment signs, math or commands is allowed whole: the mask has the one
/// span covering it (none when the text is empty).
pub proof fn plain_text_is_allowed_whole(s: Seq<char>)
    requires
        s.len() <= isize::MAX,
        is_plain_text(s),
    ensures
        mask_of(s) == Some(
            if s.len() == 0 {
                Seq::<Span>::empty()
            } else {
                seq![Span { start: 0, end: s.len() as usize }]
            },
        ),
{
    lemma_scan_plain_run(s, (0, 0, Seq::empty()), s.len() as int);
    if s.len() > 0 {
        assert(flush((s.len() as int, 0, Seq::empty())) =~= seq![
            Span { start: 0, end: s.len() as usize },
        ]);
    }
}

proof fn lemma_scan_comments(s: Seq<char>, c: int)
    requires
        s.len() <= isize::MAX,
        0 <= c <= s.len(),
        forall|i: int| 0 <= i < s.len() ==> s[i] == '%',
    ensures
        scan_from(s, (c, c, Seq::empty())) == Some(Seq::<Span>::empty()),
    decreases s.len() - c,
{
    if c < s.len() {
        assert(s[c] == '%');
        let next = apply_actions(s.len() as int, (c, c, Seq::empty()), step_actions(s, c));
        assert(next == (c + 1, c + 1, Seq::<Span>::empty())) by {
            reveal_with_fuel(apply_actions, 2);
        }
        lemma_scan_comments(s, c + 1);
    }
}

/// A text made only of comment signs is masked whole.
pub proof fn comment_signs_are_masked(s: Seq<char>)
    requires
        s.len() <= isize::MAX,
        forall|i: int| 0 <= i < s.len() ==> s[i] == '%',
    ensures
        mask_of(s) == Some(Seq::<Span>::empty()),
{
    lemma_scan_comments(s, 0);
}

/// A math block (`$`, text without `$`, `$`) between plain text is masked whole, dollars
/// included; the plain text on either side is allowed.
pub proof fn math_block_is_masked(s: Seq<char>, open: int, close: int)
    requires
        s.len() <= isize::MAX,
        0 <= open < close < s.len(),
        s[open] == '$',
        s[close] == '$',
        forall|i: int| 0 <= i < open ==> is_plain_char(#[trigger] s[i]),
        forall|i: int| open < i < close ==> #[trigger] s[i] != '$',
        forall|i: int| close < i < s.len() ==> is_plain_char(#[trigger] s[i]),
    ensures
        mask_of(s) == Some(
            (if open > 0 {
                seq![Span { start: 0, end: open as usize }]
            } else {
                Seq::<Span>::empty()
            }) + (if close + 1 < s.len() {
                seq![Span { start: (close + 1) as usize, end: s.len() as usize }]
            } else {
                Seq::<Span>::empty()
            }),
        ),
{
    let len = s.len() as int;
    let empty = Seq::<Span>::empty();
    lemma_scan_plain_run(s, (0, 0, empty), open);
    // the step at the opening dollar masks up to and including the closing one
    lemma_run_before_exact(s, open + 1, close, '$');
    assert(math_mode_at(s, open) == Some(close - open + 1));
    assert(step_actions(s, open) == seq![
        CursorAction::PushMaskAndIncBy((close - open + 1) as usize),
    ]);
    let before = if open > 0 {
        seq![Span { start: 0, end: open as usize }]
    } else {
        empty
    };
    assert(flush((open, 0, empty)) =~= before);
    let next = apply_actions(len, (open, 0, empty), step_actions(s, open));
    assert(next == (close + 1, close + 1, before)) by {
        reveal_with_fuel(apply_actions, 2);
    }
    lemma_scan_plain_run(s, (close + 1, close + 1, before), len);
    let after = if close + 1 < len {
        seq![Span { start: (close + 1) as usize, end: len as usize }]
    } else {
        empty
    };
    assert(flush((len, close + 1, before)) =~= before + after);
}

/// No content command is named `begin`, in any case.
proof fn lemma_content_command_is_not_begin(name: Seq<char>)
    requires
        is_content_command(name),
    ensures
        !eq_ignore_ascii_case(name, "begin"@),
{
    reveal_strlit("begin");
    reveal_strlit("section");
    reveal_strlit("title");
    reveal_strlit("subsection");
    reveal_strlit("subsubsection");
    reveal_strlit("textbf");
    reveal_strlit("textit");
    reveal_strlit("emph");
    reveal_strlit("author");
    reveal_strlit("part");
    reveal_strlit("chapter");
    reveal_strlit("caption");
    if name == "title"@ {
        assert(ascii_fold(name[0]) != ascii_fold("begin"@[0]));
    }
}

/// A content command between plain text (`\section{...}`, say) keeps exactly its curly
/// argument: the backslash, the name and both braces are masked, and the plain text on
/// either side is allowed. The name's characters after the first are alphabetic (as
/// `char::is_alphabetic` says) and the opening brace is not.
#[verifier::spinoff_prover]
#[verifier::rlimit(60)]
pub proof fn content_command_keeps_argument(s: Seq<char>, start: int, brace: int, close: int)
    requires
        s.len() <= isize::MAX,
        0 <= start,
        start + 1 < brace < close < s.len(),
        s[start] == '\\',
        is_content_command(s.subrange(start + 1, brace)),
        forall|k: int| start + 2 <= k < brace ==> char_is_alphabetic(#[trigger] s[k]),
        s[brace] == '{',
        !char_is_alphabetic(s[brace]),
        forall|k: int| brace < k < close ==> #[trigger] s[k] != '}',
        s[close] == '}',
        forall|i: int| 0 <= i < start ==> is_plain_char(#[trigger] s[i]),
        forall|i: int| close < i < s.len() ==> is_plain_char(#[trigger] s[i]),
    ensures
        mask_of(s) == Some(
            (if start > 0 {
                seq![Span { start: 0, end: start as usize }]
            } else {
                Seq::<Span>::empty()
            }) + (if brace + 1 < close {
                seq![Span { start: (brace + 1) as usize, end: close as usize }]
            } else {
                Seq::<Span>::empty()
            }) + (if close + 1 < s.len() {
                seq![Span { start: (close + 1) as usize, end: s.len() as usize }]
            } else {
                Seq::<Span>::empty()
            }),
        ),
{
    let len = s.len() as int;
    let empty = Seq::<Span>::empty();
    lemma_scan_plain_run(s, (0, 0, empty), start);
    let t = s.subrange(start, len);
    // the command's layout, in positions relative to `start`
    let b = brace - start;
    let e = close - start;
    assert forall|k: int| 2 <= k < b implies char_is_alphabetic(#[trigger] t[k]) by {
        assert(t[k] == s[start + k]);
    }
    assert(t[b] == s[brace]);
    lemma_alphabetic_run_exact(t, 2, b);
    assert(name_end(t) == b);
    assert(command_name(t) =~= s.subrange(start + 1, brace));
    assert(square_range(t) is None);
    assert forall|k: int| b + 1 <= k < e implies #[trigger] t[k] != '}' by {
        assert(t[k] == s[start + k]);
    }
    assert(t[e] == s[close]);
    lemma_run_before_exact(t, b + 1, e, '}');
    assert(curly_range(t) == Some((b + 1, e)));
    lemma_content_command_is_not_begin(command_name(t));
    assert(!begins_equation(t));
    assert(equation_at(s, start) is None);
    assert(!step_panics(s, start));
    assert(command_diff(t) == b);
    assert(step_actions(s, start) == seq![
        CursorAction::PushMaskAndIncBy((b + 1) as usize),
        CursorAction::IncBy((e - b - 1) as usize),
        CursorAction::PushMaskAndIncBy(1),
    ]);
    let before = if start > 0 {
        seq![Span { start: 0, end: start as usize }]
    } else {
        empty
    };
    let kept = if brace + 1 < close {
        seq![Span { start: (brace + 1) as usize, end: close as usize }]
    } else {
        empty
    };
    assert(flush((start, 0, empty)) =~= before);
    assert(flush((close, brace + 1, before)) =~= before + kept);
    let next = apply_actions(len, (start, 0, empty), step_actions(s, start));
    assert(next == (close + 1, close + 1, before + kept)) by {
        reveal_with_fuel(apply_actions, 4);
    }
    lemma_scan_plain_run(s, (close + 1, close + 1, before + kept), len);
    let after = if close + 1 < len {
        seq![Span { start: (close + 1) as usize, end: len as usize }]
    } else {
        empty
    };
    assert(flush((len, close + 1, before + kept)) =~= before + kept + after);
}

/// A command without arguments between plain text (`\\LaTeX`, say) is masked whole: the
/// backslash and the name. The name's characters after the first are alphabetic (as
/// `char::is_alphabetic` says), and the character after it is not, nor a bracket.
#[verifier::spinoff_prover]
#[verifier::rlimit(60)]
pub proof fn bare_command_is_masked(s: Seq<char>, start: int, end: int)
    requires
        s.len() <= isize::MAX,
        0 <= start,
        start + 1 < end <= s.len(),
        s[start] == '\\',
        forall|k: int| start + 2 <= k < end ==> char_is_alphabetic(#[trigger] s[k]),
        end < s.len() ==> !char_is_alphabetic(s[end]) && s[end] != '[' && s[end] != '{',
        forall|i: int| 0 <= i < start ==> is_plain_char(#[trigger] s[i]),
        forall|i: int| end <= i < s.len() ==> is_plain_char(#[trigger] s[i]),
    ensures
        mask_of(s) == Some(
            (if start > 0 {
                seq![Span { start: 0, end: start as usize }]
            } else {
                Seq::<Span>::empty()
            }) + (if end < s.len() {
                seq![Span { start: end as usize, end: s.len() as usize }]
            } else {
                Seq::<Span>::empty()
            }),
        ),
{
    let len = s.len() as int;
    let empty = Seq::<Span>::empty();
    lemma_scan_plain_run(s, (0, 0, empty), start);
    let t = s.subrange(start, len);
    let n = end - start;
    assert forall|k: int| 2 <= k < n implies char_is_alphabetic(#[trigger] t[k]) by {
        assert(t[k] == s[start + k]);
    }
    if n < t.len() {
        assert(t[n] == s[end]);
    }
    lemma_alphabetic_run_exact(t, 2, n);
    assert(name_end(t) == n);
    assert(square_range(t) is None);
    assert(curly_range(t) is None);
    assert(!begins_equation(t));
    assert(equation_at(s, start) is None);
    assert(!step_panics(s, start));
    assert(command_diff(t) == n);
    assert(step_actions(s, start) == seq![CursorAction::PushMaskAndIncBy(n as usize)]);
    let before = if start > 0 {
        seq![Span { start: 0, end: start as usize }]
    } else {
        empty
    };
    assert(flush((start, 0, empty)) =~= before);
    let next = apply_actions(len, (start, 0, empty), step_actions(s, start));
    assert(next == (end, end, before)) by {
        reveal_with_fuel(apply_actions, 2);
    }
    lemma_scan_plain_run(s, (end, end, before), len);
    let after = if end < len {
        seq![Span { start: end as usize, end: len as usize }]
    } else {
        empty
    };
    assert(flush((len, end, before)) =~= before + after);
}

/// The layout of a command `\name{arg}` or `\name[opt]{arg}` at `start`: the name ends at
/// `after_name`, the optional square argument fills `after_name .. brace`, and the curly
/// argument runs from `brace` to `close`.
#[verifier::spinoff_prover]
#[verifier::rlimit(60)]
proof fn lemma_command_with_argument(s: Seq<char>, start: int, after_name: int, brace: int, close: int)
    requires
        s.len() <= isize::MAX,
        0 <= start,
        start + 1 < after_name <= brace < close < s.len(),
        s[start] == '\\',
        forall|k: int| start + 2 <= k < after_name ==> char_is_alphabetic(#[trigger] s[k]),
        !char_is_alphabetic(s[after_name]),
        after_name == brace || {
            &&& s[after_name] == '['
            &&& after_name + 2 <= brace
            &&& s[brace - 1] == ']'
            &&& forall|k: int| after_name < k < brace - 1 ==> #[trigger] s[k] != ']'
        },
        s[brace] == '{',
        forall|k: int| brace < k < close ==> #[trigger] s[k] != '}',
        s[close] == '}',
    ensures
        ({
            let t = s.subrange(start, s.len() as int);
            &&& starts_command(t)
            &&& !lone_backslash(t)
            &&& command_name(t) == s.subrange(start + 1, after_name)
            &&& command_curly(t) == Some(s.subrange(brace + 1, close))
            &&& command_diff(t) == brace - start
        }),
{
    let len = s.len() as int;
    let t = s.subrange(start, len);
    let n = after_name - start;
    let b = brace - start;
    let e = close - start;
    assert forall|k: int| 2 <= k < n implies char_is_alphabetic(#[trigger] t[k]) by {
        assert(t[k] == s[start + k]);
    }
    assert(t[n] == s[after_name]);
    lemma_alphabetic_run_exact(t, 2, n);
    assert(name_end(t) == n);
    assert(command_name(t) =~= s.subrange(start + 1, after_name));
    if after_name < brace {
        assert forall|k: int| n + 1 <= k < b - 1 implies #[trigger] t[k] != ']' by {
            assert(t[k] == s[start + k]);
        }
        assert(t[b - 1] == s[brace - 1]);
        lemma_run_before_exact(t, n + 1, b - 1, ']');
        assert(square_range(t) == Some((n + 1, b - 1)));
    } else {
        assert(square_range(t) is None);
    }
    assert(after_square(t) == b);
    assert(t[b] == s[brace]);
    assert forall|k: int| b + 1 <= k < e implies #[trigger] t[k] != '}' by {
        assert(t[k] == s[start + k]);
    }
    assert(t[e] == s[close]);
    lemma_run_before_exact(t, b + 1, e, '}');
    assert(curly_range(t) == Some((b + 1, e)));
    assert(command_curly(t) == Some(t.subrange(b + 1, e)));
    assert(t.subrange(b + 1, e) =~= s.subrange(brace + 1, close));
}

/// A content command with or without a square argument, between plain text
/// (`\section[Intro]{Introduction}`, say), keeps exactly its curly argument: the
/// backslash, the name, the square argument with its brackets and both braces are
/// masked, and the plain text on either side is allowed.
#[verifier::spinoff_prover]
#[verifier::rlimit(60)]
pub proof fn content_command_keeps_only_its_argument(
    s: Seq<char>,
    start: int,
    after_name: int,
    brace: int,
    close: int,
)
    requires
        s.len() <= isize::MAX,
        0 <= start,
        start + 1 < after_name <= brace < close < s.len(),
        s[start] == '\\',
        is_content_command(s.subrange(start + 1, after_name)),
        forall|k: int| start + 2 <= k < after_name ==> char_is_alphabetic(#[trigger] s[k]),
        !char_is_alphabetic(s[after_name]),
        after_name == brace || {
            &&& s[after_name] == '['
            &&& after_name + 2 <= brace
            &&& s[brace - 1] == ']'
            &&& forall|k: int| after_name < k < brace - 1 ==> #[trigger] s[k] != ']'
        },
        s[brace] == '{',
        forall|k: int| brace < k < close ==> #[trigger] s[k] != '}',
        s[close] == '}',
        forall|i: int| 0 <= i < start ==> is_plain_char(#[trigger] s[i]),
        forall|i: int| close < i < s.len() ==> is_plain_char(#[trigger] s[i]),
    ensures
        mask_of(s) == Some(
            (if start > 0 {
                seq![Span { start: 0, end: start as usize }]
            } else {
                Seq::<Span>::empty()
            }) + (if brace + 1 < close {
                seq![Span { start: (brace + 1) as usize, end: close as usize }]
            } else {
                Seq::<Span>::empty()
            }) + (if close + 1 < s.len() {
                seq![Span { start: (close + 1) as usize, end: s.len() as usize }]
            } else {
                Seq::<Span>::empty()
            }),
        ),
{
    let len = s.len() as int;
    let empty = Seq::<Span>::empty();
    lemma_scan_plain_run(s, (0, 0, empty), start);
    let t = s.subrange(start, len);
    let b = brace - start;
    let e = close - start;
    lemma_command_with_argument(s, start, after_name, brace, close);
    lemma_content_command_is_not_begin(command_name(t));
    assert(!begins_equation(t));
    assert(equation_at(s, start) is None);
    assert(!step_panics(s, start));
    assert(step_actions(s, start) == seq![
        CursorAction::PushMaskAndIncBy((b + 1) as usize),
        CursorAction::IncBy((e - b - 1) as usize),
        CursorAction::PushMaskAndIncBy(1),
    ]);
    let before = if start > 0 {
        seq![Span { start: 0, end: start as usize }]
    } else {
        empty
    };
    let kept = if brace + 1 < close {
        seq![Span { start: (brace + 1) as usize, end: close as usize }]
    } else {
        empty
    };
    assert(flush((start, 0, empty)) =~= before);
    assert(flush((close, brace + 1, before)) =~= before + kept);
    let next = apply_actions(len, (start, 0, empty), step_actions(s, start));
    assert(next == (close + 1, close + 1, before + kept)) by {
        reveal_with_fuel(apply_actions, 4);
    }
    lemma_scan_plain_run(s, (close + 1, close + 1, before + kept), len);
    let after = if close + 1 < len {
        seq![Span { start: (close + 1) as usize, end: len as usize }]
    } else {
        empty
    };
    assert(flush((len, close + 1, before + kept)) =~= before + kept + after);
}

/// Any other command with a curly argument, with or without a square argument, between
/// plain text (`\cite{knuth}` or `\cite[p. 3]{knuth}`, say) is masked from its backslash
/// through the end of its curly argument: nothing of the name, the square argument or the
/// curly argument is allowed. Only the closing brace, and the plain text on either side,
/// stay. The content commands are section, title, subsection, subsubsection, textbf,
/// textit, emph, author, part, chapter and caption; a command other than
/// `\begin{equation}` (up to ASCII case) is meant.
#[verifier::spinoff_prover]
#[verifier::rlimit(60)]
pub proof fn other_command_is_masked_through_its_argument(
    s: Seq<char>,
    start: int,
    after_name: int,
    brace: int,
    close: int,
)
    requires
        s.len() <= isize::MAX,
        0 <= start,
        start + 1 < after_name <= brace < close < s.len(),
        s[start] == '\\',
        ({
            let name = s.subrange(start + 1, after_name);
            &&& name != "section"@
            &&& name != "title"@
            &&& name != "subsection"@
            &&& name != "subsubsection"@
            &&& name != "textbf"@
            &&& name != "textit"@
            &&& name != "emph"@
            &&& name != "author"@
            &&& name != "part"@
            &&& name != "chapter"@
            &&& name != "caption"@
        }),
        !(eq_ignore_ascii_case(s.subrange(start + 1, after_name), "begin"@) && eq_ignore_ascii_case(
            s.subrange(brace + 1, close),
            "equation"@,
        )),
        forall|k: int| start + 2 <= k < after_name ==> char_is_alphabetic(#[trigger] s[k]),
        !char_is_alphabetic(s[after_name]),
        after_name == brace || {
            &&& s[after_name] == '['
            &&& after_name + 2 <= brace
            &&& s[brace - 1] == ']'
            &&& forall|k: int| after_name < k < brace - 1 ==> #[trigger] s[k] != ']'
        },
        s[brace] == '{',
        forall|k: int| brace < k < close ==> #[trigger] s[k] != '}',
        s[close] == '}',
        forall|i: int| 0 <= i < start ==> is_plain_char(#[trigger] s[i]),
        forall|i: int| close < i < s.len() ==> is_plain_char(#[trigger] s[i]),
    ensures
        mask_of(s) == Some(
            (if start > 0 {
                seq![Span { start: 0, end: start as usize }]
            } else {
                Seq::<Span>::empty()
            }) + seq![Span { start: close as usize, end: s.len() as usize }],
        ),
{
    let len = s.len() as int;
    let empty = Seq::<Span>::empty();
    lemma_scan_plain_run(s, (0, 0, empty), start);
    let t = s.subrange(start, len);
    lemma_command_with_argument(s, start, after_name, brace, close);
    assert(!is_content_command(command_name(t)));
    assert(!begins_equation(t));
    assert(equation_at(s, start) is None);
    assert(!step_panics(s, start));
    assert(step_actions(s, start) == seq![
        CursorAction::PushMaskAndIncBy((close - start) as usize),
    ]);
    let before = if start > 0 {
        seq![Span { start: 0, end: start as usize }]
    } else {
        empty
    };
    assert(flush((start, 0, empty)) =~= before);
    let next = apply_actions(len, (start, 0, empty), step_actions(s, start));
    assert(next == (close, close, before)) by {
        reveal_with_fuel(apply_actions, 2);
    }
    assert(is_plain_char(s[close]));
    lemma_scan_plain_run(s, (close, close, before), len);
    assert(flush((len, close, before)) =~= before + seq![
        Span { start: close as usize, end: len as usize },
    ]);
}

/// The content commands are exactly the eleven sectioning and emphasis commands.
pub proof fn content_commands_are_the_listed_ones(name: Seq<char>)
    ensures
        is_content_command(name) <==> {
            ||| name == "section"@
            ||| name == "title"@
            ||| name == "subsection"@
            ||| name == "subsubsection"@
            ||| name == "textbf"@
            ||| name == "textit"@
            ||| name == "emph"@
            ||| name == "author"@
            ||| name == "part"@
            ||| name == "chapter"@
            ||| name == "caption"@
        },
{
}

} // verus!
