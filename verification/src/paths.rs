//! Paths as text, with `/` between their components.

use vstd::prelude::*;
use vstd::string::*;
use crate::text::{
    chars_of, decimal, number_text, signed_decimal, signed_text, text_between,
};

verus! {

/// Whether a path is absolute.
pub open spec fn is_absolute(path: Seq<char>) -> bool {
    path.len() > 0 && path[0] == '/'
}

/// The path `path` as seen from the directory `base`.
pub open spec fn joined_path(base: Seq<char>, path: Seq<char>) -> Seq<char> {
    if is_absolute(path) {
        path
    } else if base.len() > 0 && base.last() != '/' {
        base.push('/') + path
    } else {
        base + path
    }
}

/// A path made absolute from the directory `cwd`.
pub open spec fn absolute_view(value: Seq<char>, cwd: Seq<char>) -> Seq<char> {
    if is_absolute(value) {
        value
    } else {
        joined_path(cwd, value)
    }
}

/// Whether a path is absolute.
fn starts_at_root(path: &str) -> (absolute: bool)
    ensures
        absolute == is_absolute(path@),
{
    let chars = chars_of(path);
    chars.len() > 0 && chars[0] == '/'
}

/// The path `path` as seen from the directory `base`.
pub fn join_path(base: &str, path: &str) -> (result: String)
    ensures
        result@ == joined_path(base@, path@),
{
    if starts_at_root(path) {
        return path.to_owned();
    }
    let chars = chars_of(base);
    let mut result = base.to_owned();
    if chars.len() > 0 && chars[chars.len() - 1] != '/' {
        result.push('/');
    }
    result.append(path);
    result
}

/// A path made absolute from the directory `cwd`.
pub fn absolute_path(value: &str, cwd: &str) -> (path: String)
    ensures
        path@ == absolute_view(value@, cwd@),
{
    if starts_at_root(value) {
        value.to_owned()
    } else {
        join_path(cwd, value)
    }
}

/// A path that was given as text, made absolute from the directory `cwd`.
pub fn absolute(value: &str, cwd: &str) -> (path: String)
    ensures
        path@ == absolute_view(value@, cwd@),
{
    absolute_path(value, cwd)
}

/// How much of a path comes before its components: the root, or a leading `.`.
pub open spec fn body_start(path: Seq<char>) -> int {
    if is_absolute(path) {
        1
    } else if path.len() > 0 && path[0] == '.' && (path.len() == 1 || path[1] == '/') {
        1
    } else {
        0
    }
}

/// Where the last component of the path up to `end` begins.
pub open spec fn component_start(path: Seq<char>, start: int, end: int) -> int
    decreases end - start,
{
    if end <= start || path[end - 1] == '/' {
        end
    } else {
        component_start(path, start, end - 1)
    }
}

/// What is left before a component that begins at `at`, without the separator.
pub open spec fn before_component(start: int, at: int) -> int {
    if at > start {
        at - 1
    } else {
        start
    }
}

/// Where the path up to `end` ends without the empty components and the `.` at its end.
pub open spec fn trimmed_end(path: Seq<char>, start: int, end: int) -> int
    decreases end - start,
    via trimmed_end_decreases
{
    if end <= start {
        end
    } else {
        let at = component_start(path, start, end);
        if at == end || (at == end - 1 && path[at] == '.') {
            trimmed_end(path, start, before_component(start, at))
        } else {
            end
        }
    }
}

#[via_fn]
proof fn trimmed_end_decreases(path: Seq<char>, start: int, end: int) {
    if end > start {
        lemma_component_start(path, start, end);
    }
}

proof fn lemma_component_start(path: Seq<char>, start: int, end: int)
    requires
        start <= end,
    ensures
        start <= component_start(path, start, end) <= end,
    decreases end - start,
{
    if end > start && path[end - 1] != '/' {
        lemma_component_start(path, start, end - 1);
    }
}

proof fn lemma_trimmed_end(path: Seq<char>, start: int, end: int)
    requires
        start <= end,
    ensures
        start <= trimmed_end(path, start, end) <= end,
    decreases end - start,
{
    if end > start {
        let at = component_start(path, start, end);
        lemma_component_start(path, start, end);
        if at == end || (at == end - 1 && path[at] == '.') {
            lemma_trimmed_end(path, start, before_component(start, at));
        }
    }
}

/// The path without its last component; nothing if it has none.
pub open spec fn parent_view(path: Seq<char>) -> Option<Seq<char>> {
    let start = body_start(path);
    let end = trimmed_end(path, start, path.len() as int);
    if end > start {
        let at = component_start(path, start, end);
        Some(path.take(trimmed_end(path, start, before_component(start, at))))
    } else if start == 1 && !is_absolute(path) {
        Some(Seq::empty())
    } else {
        None
    }
}

/// Where the last component of the path up to `end` begins.
fn find_component(chars: &Vec<char>, start: usize, end: usize) -> (at: usize)
    requires
        start <= end <= chars@.len(),
    ensures
        at == component_start(chars@, start as int, end as int),
        start <= at <= end,
{
    let mut at = end;
    while at > start && chars[at - 1] != '/'
        invariant
            start <= at <= end <= chars@.len(),
            component_start(chars@, start as int, end as int) == component_start(
                chars@,
                start as int,
                at as int,
            ),
        decreases at,
    {
        at = at - 1;
    }
    at
}

/// Where the path up to `end` ends without the empty components and the `.` at its end.
fn trim_components(chars: &Vec<char>, start: usize, end: usize) -> (result: usize)
    requires
        start <= end <= chars@.len(),
    ensures
        result == trimmed_end(chars@, start as int, end as int),
        start <= result <= end,
{
    let mut len = end;
    proof {
        lemma_trimmed_end(chars@, start as int, end as int);
    }
    while len > start
        invariant
            start <= len <= end <= chars@.len(),
            trimmed_end(chars@, start as int, end as int) == trimmed_end(
                chars@,
                start as int,
                len as int,
            ),
        decreases len,
    {
        let at = find_component(chars, start, len);
        if at == len || (at == len - 1 && chars[at] == '.') {
            len = if at > start {
                at - 1
            } else {
                start
            };
        } else {
            return len;
        }
    }
    len
}

/// How much of a path comes before its components: the root, or a leading `.`.
fn find_body(chars: &Vec<char>) -> (start: usize)
    ensures
        start == body_start(chars@),
        start <= chars@.len(),
{
    let n = chars.len();
    if n > 0 && chars[0] == '/' {
        1
    } else if n > 0 && chars[0] == '.' && (n == 1 || chars[1] == '/') {
        1
    } else {
        0
    }
}

/// The path without its last component; nothing if it has none.
pub fn parent(path: &str) -> (result: Option<String>)
    ensures
        parent_view(path@) == (match result {
            Some(text) => Some(text@),
            None => None,
        }),
{
    let chars = chars_of(path);
    let start = find_body(&chars);
    let end = trim_components(&chars, start, chars.len());
    if end > start {
        let at = find_component(&chars, start, end);
        let before = if at > start {
            at - 1
        } else {
            start
        };
        let to = trim_components(&chars, start, before);
        let text = text_between(&chars, 0, to);
        assert(text@ =~= path@.take(to as int));
        Some(text)
    } else if start == 1 && chars[0] != '/' {
        let text = String::new();
        assert(text@ =~= Seq::<char>::empty());
        Some(text)
    } else {
        None
    }
}

/// The extension of the file that the database is written to before it takes the place of the old
/// one: the number of the process and the time in milliseconds.
pub fn temporary_extension(process: u32, millis: i64) -> (extension: String)
    ensures
        extension@ == decimal(process as nat) + "."@ + signed_decimal(millis as int) + ".tmp"@,
{
    let mut extension = number_text(process as u64);
    extension.append(".");
    extension.append(signed_text(millis).as_str());
    extension.append(".tmp");
    extension
}

/// The name of the request log.
pub const LOG_NAME: &'static str = "ai_proxy.sqlite3";

/// Where the request log is kept unless another place is given: next to the database.
pub open spec fn default_log_path(db_path: Seq<char>) -> Seq<char> {
    match parent_view(db_path) {
        Some(directory) => joined_path(directory, LOG_NAME@),
        None => LOG_NAME@,
    }
}

/// Where the request log is kept unless another place is given: `ai_proxy.sqlite3` next to the
/// database.
pub fn default_path(db_path: &str) -> (path: String)
    ensures
        path@ == default_log_path(db_path@),
{
    match parent(db_path) {
        Some(directory) => join_path(directory.as_str(), LOG_NAME),
        None => LOG_NAME.to_owned(),
    }
}

proof fn lemma_component_start_prefix(path: Seq<char>, longer: Seq<char>, start: int, end: int)
    requires
        0 <= start <= end <= path.len() <= longer.len(),
        longer.take(path.len() as int) == path,
    ensures
        component_start(longer, start, end) == component_start(path, start, end),
    decreases end - start,
{
    if end > start {
        assert(longer.take(path.len() as int)[end - 1] == longer[end - 1]);
        if path[end - 1] != '/' {
            lemma_component_start_prefix(path, longer, start, end - 1);
        }
    }
}

proof fn lemma_component_of_name(path: Seq<char>, start: int, at: int, end: int)
    requires
        0 <= start <= at <= end <= path.len(),
        at == start || path[at - 1] == '/',
        forall|i: int| at <= i < end ==> path[i] != '/',
    ensures
        component_start(path, start, end) == at,
    decreases end - at,
{
    if end > at {
        lemma_component_of_name(path, start, at, end - 1);
    }
}

/// The request log stands next to the database: where the database is the file `name` in a directory
/// that does not end with a separator or a `.`, the log has the same directory.
pub proof fn law_log_is_next_to_the_database(directory: Seq<char>, name: Seq<char>)
    requires
        directory.len() > 0,
        directory.last() != '/',
        trimmed_end(directory, body_start(directory), directory.len() as int) == directory.len(),
        name.len() > 0,
        name != seq!['.'],
        forall|i: int| 0 <= i < name.len() ==> name[i] != '/',
    ensures
        default_log_path(directory.push('/') + name) == directory.push('/') + LOG_NAME@,
{
    let path = directory.push('/') + name;
    let n = directory.len() as int;
    let start = body_start(directory);
    assert(path[0] == directory[0]);
    if n == 1 {
        assert(path[1] == '/');
    } else {
        assert(path[1] == directory[1]);
    }
    assert(body_start(path) == start);
    assert forall|i: int| n + 1 <= i < path.len() implies path[i] != '/' by {
        assert(path[i] == name[i - n - 1]);
    }
    assert(path[n] == '/');
    lemma_component_of_name(path, start, n + 1, path.len() as int);
    if name.len() == 1 {
        assert(name =~= seq![name[0]]);
        assert(path[n + 1] == name[0]);
    }
    assert(trimmed_end(path, start, path.len() as int) == path.len());
    assert(path.take(n) =~= directory);
    lemma_component_start_prefix(directory, path, start, n);
    assert(trimmed_end(path, start, n) == n) by {
        if n > start {
            let at = component_start(directory, start, n);
            lemma_component_start(directory, start, n);
            if at == n - 1 {
                assert(path[at] == directory[at]);
            }
            if at == n || (at == n - 1 && directory[at] == '.') {
                lemma_trimmed_end(directory, start, before_component(start, at));
            }
        }
    }
    assert(parent_view(path) == Some(directory));
    reveal_strlit("ai_proxy.sqlite3");
    assert(!is_absolute(LOG_NAME@));
}

/// A relative path is seen from its directory, with one separator between them; an absolute path
/// stays as it is.
pub proof fn law_paths_are_seen_from_their_directory(base: Seq<char>, path: Seq<char>)
    ensures
        path.len() > 0 && path[0] == '/' ==> joined_path(base, path) == path && absolute_view(
            path,
            base,
        ) == path,
        (path.len() == 0 || path[0] != '/') && base.len() > 0 && base.last() != '/' ==> joined_path(
            base,
            path,
        ) == base + seq!['/'] + path && absolute_view(path, base) == base + seq!['/'] + path,
        (path.len() == 0 || path[0] != '/') && base.len() > 0 && base.last() == '/' ==> joined_path(
            base,
            path,
        ) == base + path && absolute_view(path, base) == base + path,
{
    assert(base.push('/') + path =~= base + seq!['/'] + path);
}

/// A database that is named without a directory has its request log beside it, in the same directory.
pub proof fn law_log_of_a_bare_name(name: Seq<char>)
    requires
        name.len() > 0,
        name != seq!['.'],
        forall|i: int| 0 <= i < name.len() ==> name[i] != '/',
    ensures
        default_log_path(name) == "ai_proxy.sqlite3"@,
{
    reveal_strlit("ai_proxy.sqlite3");
    let n = name.len() as int;
    if n == 1 {
        assert(name =~= seq![name[0]]);
    }
    assert(name[0] != '/');
    if n > 1 {
        assert(name[1] != '/');
    }
    assert(body_start(name) == 0);
    lemma_bare_component(name, n);
    assert(trimmed_end(name, 0, n) == n);
    assert(trimmed_end(name, 0, 0) == 0);
    assert(name.take(0) =~= Seq::<char>::empty());
    assert(parent_view(name) == Some(Seq::<char>::empty()));
    assert(Seq::<char>::empty() + "ai_proxy.sqlite3"@ =~= "ai_proxy.sqlite3"@);
}

proof fn lemma_bare_component(name: Seq<char>, end: int)
    requires
        0 <= end <= name.len(),
        forall|i: int| 0 <= i < name.len() ==> name[i] != '/',
    ensures
        component_start(name, 0, end) == 0,
    decreases end,
{
    if end > 0 {
        lemma_bare_component(name, end - 1);
    }
}

}
