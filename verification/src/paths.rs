//! Texts of paths, whose parts are separated by `/`.

use vstd::prelude::*;

use crate::text::{append_chars, slice_chars};

verus! {

/// Length of what comes before the parts of a path: the root, or a leading `.` part.
pub open spec fn before_parts(path: Seq<char>) -> int {
    if path.len() > 0 && (path[0] == '/' || (path[0] == '.' && (path.len() == 1 || path[1] == '/'))) {
        1
    } else {
        0
    }
}

/// Length of the first `len` characters of a path without the separators and `.` parts at their
/// end.
pub open spec fn trimmed_len(path: Seq<char>, len: int) -> int
    decreases len,
{
    if len <= before_parts(path) || len <= 0 {
        len
    } else if path[len - 1] == '/' || (path[len - 1] == '.' && (len - 1 == before_parts(path)
        || path[len - 2] == '/')) {
        trimmed_len(path, len - 1)
    } else {
        len
    }
}

/// Where the part begins that ends at `end`.
pub open spec fn part_start(path: Seq<char>, end: int) -> int
    decreases end,
{
    if end <= before_parts(path) || end <= 0 || path[end - 1] == '/' {
        end
    } else {
        part_start(path, end - 1)
    }
}

/// The last part of a path as a file name; a path that ends in its root, in a leading `.` or in
/// `..` has none.
pub open spec fn file_name_of(path: Seq<char>) -> Option<Seq<char>> {
    let end = trimmed_len(path, path.len() as int);
    let name = path.subrange(part_start(path, end), end);
    if end <= before_parts(path) || name == seq!['.', '.'] {
        None
    } else {
        Some(name)
    }
}

/// A path without its file name.
pub open spec fn without_file_name(path: Seq<char>) -> Seq<char> {
    if file_name_of(path) is Some {
        let end = trimmed_len(path, path.len() as int);
        path.take(trimmed_len(path, part_start(path, end)))
    } else {
        path
    }
}

/// A path with another file name in the same directory.
pub open spec fn with_file_name(path: Seq<char>, name: Seq<char>) -> Seq<char> {
    let directory = without_file_name(path);
    if directory.len() > 0 && directory.last() != '/' {
        directory + seq!['/'] + name
    } else {
        directory + name
    }
}

/// Where the extension of a file name begins, with its dot: at the last dot, unless that is the
/// first character.
pub open spec fn stem_len(name: Seq<char>, len: int) -> int
    decreases len,
{
    if len <= 1 {
        name.len() as int
    } else if name[len - 1] == '.' {
        len - 1
    } else {
        stem_len(name, len - 1)
    }
}

/// A file name without its extension.
pub open spec fn file_stem_of(name: Seq<char>) -> Seq<char> {
    name.take(stem_len(name, name.len() as int))
}

fn exec_before_parts(path: &[char]) -> (result: usize)
    ensures
        result == before_parts(path@),
        result <= path@.len(),
{
    if path.len() > 0 && (path[0] == '/' || (path[0] == '.' && (path.len() == 1 || path[1] == '/'))) {
        1
    } else {
        0
    }
}

fn exec_trimmed_len(path: &[char], len: usize) -> (result: usize)
    requires
        len <= path@.len(),
    ensures
        result == trimmed_len(path@, len as int),
        result <= len,
{
    let before: usize = exec_before_parts(path);
    let mut end: usize = len;
    while end > before && (path[end - 1] == '/' || (path[end - 1] == '.' && (end - 1 == before
        || path[end - 2] == '/')))
        invariant
            before == before_parts(path@),
            end <= len <= path@.len(),
            trimmed_len(path@, end as int) == trimmed_len(path@, len as int),
        decreases end,
    {
        end -= 1;
    }
    end
}

fn exec_part_start(path: &[char], end: usize) -> (result: usize)
    requires
        end <= path@.len(),
    ensures
        result == part_start(path@, end as int),
        result <= end,
{
    let before: usize = exec_before_parts(path);
    let mut start: usize = end;
    while start > before && path[start - 1] != '/'
        invariant
            before == before_parts(path@),
            start <= end <= path@.len(),
            part_start(path@, start as int) == part_start(path@, end as int),
        decreases start,
    {
        start -= 1;
    }
    start
}

/// The file name of a path.
pub fn file_name(path: &[char]) -> (result: Option<Vec<char>>)
    ensures
        match result {
            Some(name) => file_name_of(path@) == Some(name@),
            None => file_name_of(path@) is None,
        },
{
    let end: usize = exec_trimmed_len(path, path.len());
    let start: usize = exec_part_start(path, end);
    let name: Vec<char> = slice_chars(path, start, end);
    let before: usize = exec_before_parts(path);
    let parent: bool = name.len() == 2 && name[0] == '.' && name[1] == '.';
    assert(parent == (name@ == seq!['.', '.'])) by {
        if parent {
            assert(name@ =~= seq!['.', '.']);
        }
    }
    if end <= before || parent {
        None
    } else {
        Some(name)
    }
}

/// A path with another file name in the same directory.
pub fn replace_file_name(path: &[char], name: &[char]) -> (result: Vec<char>)
    ensures
        result@ == with_file_name(path@, name@),
{
    let end: usize = exec_trimmed_len(path, path.len());
    let len: usize = match file_name(path) {
        Some(_) => {
            let start: usize = exec_part_start(path, end);
            exec_trimmed_len(path, start)
        },
        None => path.len(),
    };
    let mut result: Vec<char> = slice_chars(path, 0, len);
    assert(result@ =~= without_file_name(path@));
    let directory: usize = result.len();
    if directory > 0 && result[directory - 1] != '/' {
        result.push('/');
        assert(result@ =~= without_file_name(path@) + seq!['/']);
    }
    append_chars(&mut result, name);
    result
}

/// A file name without its extension.
pub fn file_stem(name: &[char]) -> (result: Vec<char>)
    ensures
        result@ == file_stem_of(name@),
{
    let total: usize = name.len();
    let mut len: usize = total;
    while len > 1 && name[len - 1] != '.'
        invariant
            len <= total == name@.len(),
            stem_len(name@, len as int) == stem_len(name@, total as int),
        decreases len,
    {
        len -= 1;
    }
    let stem: usize = if len > 1 {
        len - 1
    } else {
        total
    };
    let result: Vec<char> = slice_chars(name, 0, stem);
    assert(result@ =~= file_stem_of(name@));
    result
}

/// A file that gets another name stays in its directory.
pub proof fn law_renamed_file_stays_in_its_directory(
    directory: Seq<char>,
    name: Seq<char>,
    other: Seq<char>,
)
    requires
        directory.len() > 0,
        directory.last() != '/',
        !(directory.len() > 1 && directory.last() == '.' && directory[directory.len() - 2] == '/'),
        name.len() > 0,
        name != seq!['.', '.'],
        name != seq!['.'],
        forall|i: int| 0 <= i < name.len() ==> #[trigger] name[i] != '/',
    ensures
        with_file_name(directory + seq!['/'] + name, other) == directory + seq!['/'] + other,
        file_name_of(directory + seq!['/'] + name) == Some(name),
{
    let path = directory + seq!['/'] + name;
    let start = directory.len() + 1;
    let len = path.len() as int;
    assert(path.subrange(start as int, len) =~= name);
    assert(path[len - 1] == name.last());
    if name.last() == '.' {
        if name.len() == 1 {
            assert(name =~= seq!['.']);
        } else {
            assert(path[len - 2] == name[name.len() - 2]);
        }
    }
    assert(before_parts(path) <= directory.len()) by {
        assert(path[0] == directory[0]);
    }
    assert(trimmed_len(path, len) == len);
    lemma_part_of(path, start as int, len);
    assert(path[start - 1] == '/');
    assert(trimmed_len(path, start as int) == trimmed_len(path, start - 1));
    assert(path[start - 2] == directory.last());
    if directory.len() > 1 {
        assert(path[start - 3] == directory[directory.len() - 2]);
        assert(path[1] == directory[1]);
    }
    assert(trimmed_len(path, start - 1) == start - 1);
    assert(path.take(start - 1) =~= directory);
}

/// The stem of a file name ends at its last dot; a name without a dot behind its first character is
/// its own stem.
pub proof fn law_stem_ends_at_the_last_dot(stem: Seq<char>, extension: Seq<char>)
    requires
        stem.len() > 0,
        forall|i: int| 0 <= i < extension.len() ==> #[trigger] extension[i] != '.',
    ensures
        file_stem_of(stem + seq!['.'] + extension) == stem,
        (forall|i: int| 0 < i < stem.len() ==> #[trigger] stem[i] != '.') ==> file_stem_of(stem)
            == stem,
{
    let name = stem + seq!['.'] + extension;
    let at = stem.len() as int;
    assert(name[at] == '.');
    assert forall|i: int| at < i < name.len() implies #[trigger] name[i] != '.' by {
        assert(name[i] == extension[i - at - 1]);
    }
    lemma_stem_len(name, at, name.len() as int);
    assert(name.take(at) =~= stem);
    if forall|i: int| 0 < i < stem.len() ==> #[trigger] stem[i] != '.' {
        lemma_no_dot(stem, stem.len() as int);
        assert(stem.take(stem.len() as int) =~= stem);
    }
}

proof fn lemma_stem_len(name: Seq<char>, at: int, len: int)
    requires
        0 < at < len <= name.len(),
        name[at] == '.',
        forall|i: int| at < i < len ==> #[trigger] name[i] != '.',
    ensures
        stem_len(name, len) == at,
    decreases len,
{
    if len - 1 > at {
        assert(name[len - 1] != '.');
        lemma_stem_len(name, at, len - 1);
    }
}

proof fn lemma_no_dot(name: Seq<char>, len: int)
    requires
        0 <= len <= name.len(),
        forall|i: int| 0 < i < len ==> #[trigger] name[i] != '.',
    ensures
        stem_len(name, len) == name.len(),
    decreases len,
{
    if len > 1 {
        assert(name[len - 1] != '.');
        lemma_no_dot(name, len - 1);
    }
}

/// A path of one part is its own file name, and another name takes its place.
pub proof fn law_plain_name_is_replaced(name: Seq<char>, other: Seq<char>)
    requires
        name.len() > 0,
        name != seq!['.', '.'],
        name != seq!['.'],
        forall|i: int| 0 <= i < name.len() ==> #[trigger] name[i] != '/',
    ensures
        file_name_of(name) == Some(name),
        with_file_name(name, other) == other,
{
    let len = name.len() as int;
    if name.len() == 1 {
        assert(name =~= seq![name[0]]);
    } else {
        assert(name[1] != '/');
    }
    assert(before_parts(name) == 0) by {
        assert(name[0] != '/');
        if name.len() == 1 {
            assert(seq!['.'][0] == '.');
        }
    }
    assert(name[len - 1] != '/');
    if name[len - 1] == '.' && len > 1 {
        assert(name[len - 2] != '/');
    }
    assert(trimmed_len(name, len) == len);
    lemma_whole_part(name, len);
    assert(name.subrange(0, len) =~= name);
    assert(name.take(0) =~= Seq::<char>::empty());
    assert(without_file_name(name) =~= Seq::<char>::empty());
    assert(Seq::<char>::empty() + other =~= other);
}

proof fn lemma_whole_part(name: Seq<char>, end: int)
    requires
        before_parts(name) == 0,
        0 <= end <= name.len(),
        forall|i: int| 0 <= i < end ==> #[trigger] name[i] != '/',
    ensures
        part_start(name, end) == 0,
    decreases end,
{
    if end > 0 {
        assert(name[end - 1] != '/');
        lemma_whole_part(name, end - 1);
    }
}

/// A separator behind a path changes neither its file name nor its directory.
pub proof fn law_trailing_separator_does_not_matter(path: Seq<char>, other: Seq<char>)
    requires
        path.len() > 0,
    ensures
        file_name_of(path + seq!['/']) == file_name_of(path),
        file_name_of(path) is Some ==> with_file_name(path + seq!['/'], other) == with_file_name(
            path,
            other,
        ),
{
    let longer = path + seq!['/'];
    let len = path.len() as int;
    assert(longer[0] == path[0] && longer[len] == '/');
    if len > 1 {
        assert(longer[1] == path[1]);
    }
    assert(before_parts(longer) == before_parts(path));
    lemma_same_front(path, longer, len);
    assert(trimmed_len(longer, len + 1) == trimmed_len(longer, len));
    let end = trimmed_len(path, len);
    lemma_trimmed_len_bounds(path, len);
    lemma_same_part(path, longer, end);
    lemma_part_bounds(path, end);
    let start = part_start(path, end);
    assert(longer.subrange(start, end) =~= path.subrange(start, end));
    lemma_same_front(path, longer, start);
    lemma_trimmed_len_bounds(path, start);
    assert(longer.take(trimmed_len(path, start)) =~= path.take(trimmed_len(path, start)));
}

proof fn lemma_trimmed_len_bounds(path: Seq<char>, len: int)
    requires
        0 <= len <= path.len(),
    ensures
        0 <= trimmed_len(path, len) <= len,
    decreases len,
{
    if len > 0 {
        lemma_trimmed_len_bounds(path, len - 1);
    }
}

proof fn lemma_part_bounds(path: Seq<char>, end: int)
    requires
        0 <= end <= path.len(),
    ensures
        0 <= part_start(path, end) <= end,
    decreases end,
{
    if end > 0 {
        lemma_part_bounds(path, end - 1);
    }
}

proof fn lemma_same_front(path: Seq<char>, longer: Seq<char>, len: int)
    requires
        path.is_prefix_of(longer),
        before_parts(path) == before_parts(longer),
        0 <= len <= path.len(),
    ensures
        trimmed_len(longer, len) == trimmed_len(path, len),
    decreases len,
{
    if len > 0 {
        assert(longer[len - 1] == path[len - 1]);
        if len > 1 {
            assert(longer[len - 2] == path[len - 2]);
        }
        lemma_same_front(path, longer, len - 1);
    }
}

proof fn lemma_same_part(path: Seq<char>, longer: Seq<char>, end: int)
    requires
        path.is_prefix_of(longer),
        before_parts(path) == before_parts(longer),
        0 <= end <= path.len(),
    ensures
        part_start(longer, end) == part_start(path, end),
    decreases end,
{
    if end > 0 {
        assert(longer[end - 1] == path[end - 1]);
        lemma_same_part(path, longer, end - 1);
    }
}

proof fn lemma_part_of(path: Seq<char>, start: int, end: int)
    requires
        before_parts(path) < start <= end <= path.len(),
        path[start - 1] == '/',
        forall|i: int| start <= i < end ==> path[i] != '/',
    ensures
        part_start(path, end) == start,
    decreases end - start,
{
    if start < end {
        assert(path[end - 1] != '/');
        lemma_part_of(path, start, end - 1);
    }
}

} // verus!
