//! Read-only access to parsed metadata: groups of key/value pairs, both
//! levels kept in insertion order by `indexmap::IndexMap`.

use indexmap::IndexMap;
use vstd::prelude::*;

verus! {

#[verifier::external_type_specification]
#[verifier::external_body]
#[verifier::reject_recursive_types(K)]
#[verifier::reject_recursive_types(V)]
#[verifier::reject_recursive_types(S)]
pub struct ExIndexMap<K, V, S>(IndexMap<K, V, S>);

/// The keys and values of one group, in insertion order.
pub type Group = IndexMap<String, String>;

/// The groups of a metadata file, in insertion order.
pub type Metadata = IndexMap<String, IndexMap<String, String>>;

/// What a group holds: its key/value pairs in insertion order.
pub uninterp spec fn group_entries(m: IndexMap<String, String>) -> Seq<(Seq<char>, Seq<char>)>;

/// What a metadata value holds: its groups in insertion order, each with its
/// name and entries.
pub uninterp spec fn metadata_entries(m: IndexMap<String, IndexMap<String, String>>) -> Seq<
    (Seq<char>, Seq<(Seq<char>, Seq<char>)>),
>;

/// The value stored under `k`: that of the first entry with that key.
pub open spec fn lookup<V>(entries: Seq<(Seq<char>, V)>, k: Seq<char>) -> Option<V>
    decreases entries.len(),
{
    if entries.len() == 0 {
        None
    } else if entries[0].0 == k {
        Some(entries[0].1)
    } else {
        lookup(entries.skip(1), k)
    }
}

/// Relies on `IndexMap::get`: the value stored under the key, if any.
#[verifier::external_body]
pub(crate) fn group_get<'a>(m: &'a Group, k: &str) -> (r: Option<&'a String>)
    ensures
        match r {
            Some(v) => lookup(group_entries(*m), k@) == Some(v@),
            None => lookup(group_entries(*m), k@) is None,
        },
{
    m.get(k)
}

/// Relies on `IndexMap::len`: the number of entries.
#[verifier::external_body]
pub(crate) fn group_len(m: &Group) -> (r: usize)
    ensures
        r == group_entries(*m).len(),
{
    m.len()
}

/// Relies on `IndexMap::get_index`: the entry at a position in insertion order.
#[verifier::external_body]
pub(crate) fn group_at<'a>(m: &'a Group, i: usize) -> (r: Option<(&'a String, &'a String)>)
    ensures
        i < group_entries(*m).len() <==> r is Some,
        r matches Some(p) ==> p.0@ == group_entries(*m)[i as int].0 && p.1@ == group_entries(
            *m,
        )[i as int].1,
{
    m.get_index(i)
}

/// Relies on `IndexMap::get`: the group stored under the name, if any.
#[verifier::external_body]
pub(crate) fn metadata_get<'a>(m: &'a Metadata, k: &str) -> (r: Option<&'a Group>)
    ensures
        match r {
            Some(g) => lookup(metadata_entries(*m), k@) == Some(group_entries(*g)),
            None => lookup(metadata_entries(*m), k@) is None,
        },
{
    m.get(k)
}

/// Relies on `IndexMap::len`: the number of groups.
#[verifier::external_body]
pub(crate) fn metadata_len(m: &Metadata) -> (r: usize)
    ensures
        r == metadata_entries(*m).len(),
{
    m.len()
}

/// Relies on `IndexMap::get_index`: the group at a position in insertion order.
#[verifier::external_body]
pub(crate) fn metadata_at<'a>(m: &'a Metadata, i: usize) -> (r: Option<(&'a String, &'a Group)>)
    ensures
        i < metadata_entries(*m).len() <==> r is Some,
        r matches Some(p) ==> p.0@ == metadata_entries(*m)[i as int].0 && group_entries(*p.1)
            == metadata_entries(*m)[i as int].1,
{
    m.get_index(i)
}

/// The value of `key` in group `group`, if both are present.
pub open spec fn field_spec(meta: Seq<(Seq<char>, Seq<(Seq<char>, Seq<char>)>)>, group: Seq<char>, key: Seq<char>) -> Option<Seq<char>> {
    match lookup(meta, group) {
        Some(g) => lookup(g, key),
        None => None,
    }
}

/// The value of `key` in group `group`, if both are present.
pub fn field<'a>(m: &'a Metadata, group: &str, key: &str) -> (r: Option<&'a String>)
    ensures
        match r {
            Some(v) => field_spec(metadata_entries(*m), group@, key@) == Some(v@),
            None => field_spec(metadata_entries(*m), group@, key@) is None,
        },
{
    match metadata_get(m, group) {
        Some(g) => group_get(g, key),
        None => None,
    }
}

/// The position of the first entry with key `k`.
pub open spec fn key_index<V>(entries: Seq<(Seq<char>, V)>, k: Seq<char>) -> Option<int>
    decreases entries.len(),
{
    if entries.len() == 0 {
        None
    } else if entries[0].0 == k {
        Some(0)
    } else {
        match key_index(entries.skip(1), k) {
            Some(i) => Some(i + 1),
            None => None,
        }
    }
}

/// Insertion into an insertion-ordered map: an existing key keeps its place
/// and takes the new value; a new key goes last.
pub open spec fn insert_spec<V>(entries: Seq<(Seq<char>, V)>, k: Seq<char>, v: V) -> Seq<(Seq<char>, V)> {
    match key_index(entries, k) {
        Some(i) => entries.update(i, (k, v)),
        None => entries.push((k, v)),
    }
}

/// Relies on `IndexMap::new`: an empty map.
#[verifier::external_body]
pub(crate) fn new_group() -> (r: Group)
    ensures
        group_entries(r) == Seq::<(Seq<char>, Seq<char>)>::empty(),
{
    IndexMap::new()
}

/// Relies on `IndexMap::insert`: an existing key keeps its place and takes the
/// new value; a new key goes last.
#[verifier::external_body]
pub(crate) fn group_insert(m: &mut Group, k: String, v: String)
    ensures
        group_entries(*final(m)) == insert_spec(group_entries(*old(m)), k@, v@),
{
    m.insert(k, v);
}

/// Relies on `IndexMap::new`: an empty map.
#[verifier::external_body]
pub(crate) fn new_metadata() -> (r: Metadata)
    ensures
        metadata_entries(r) == Seq::<(Seq<char>, Seq<(Seq<char>, Seq<char>)>)>::empty(),
{
    IndexMap::new()
}

/// Relies on `IndexMap::insert`: an existing name keeps its place and takes the
/// new group; a new name goes last.
#[verifier::external_body]
pub(crate) fn metadata_insert(m: &mut Metadata, k: String, g: Group)
    ensures
        metadata_entries(*final(m)) == insert_spec(metadata_entries(*old(m)), k@, group_entries(g)),
{
    m.insert(k, g);
}

/// Why a metadata text was refused; `line` counts from zero.
#[derive(Debug, Clone, PartialEq, Eq)]
pub enum KeyfileError {
    /// A line that is neither blank, a comment, a `[group]` header nor `key=value`.
    InvalidLine { line: usize },
    /// A `key=value` line before the first group header.
    EntryOutsideGroup { line: usize },
}

pub type GroupView = Seq<(Seq<char>, Seq<char>)>;

pub type ParseState = (Seq<(Seq<char>, GroupView)>, Option<(Seq<char>, GroupView)>);

/// The position of the first `c` in `s`.
pub open spec fn first_index(s: Seq<char>, c: char) -> Option<int>
    decreases s.len(),
{
    if s.len() == 0 {
        None
    } else if s[0] == c {
        Some(0)
    } else {
        match first_index(s.skip(1), c) {
            Some(i) => Some(i + 1),
            None => None,
        }
    }
}

pub open spec fn is_header(line: Seq<char>) -> bool {
    line.len() >= 2 && line[0] == '[' && line.last() == ']'
}

/// The groups read so far with the group being read added.
pub open spec fn flush(st: ParseState) -> Seq<(Seq<char>, GroupView)> {
    match st.1 {
        Some(g) => insert_spec(st.0, g.0, g.1),
        None => st.0,
    }
}

/// Reads line `n`.
pub open spec fn parse_line(st: ParseState, line: Seq<char>, n: int) -> Result<ParseState, KeyfileError> {
    if line.len() == 0 || line[0] == '#' {
        Ok(st)
    } else if is_header(line) {
        Ok((flush(st), Some((line.subrange(1, line.len() - 1), Seq::empty()))))
    } else {
        match first_index(line, '=') {
            None => Err(KeyfileError::InvalidLine { line: n as usize }),
            Some(e) => match st.1 {
                None => Err(KeyfileError::EntryOutsideGroup { line: n as usize }),
                Some(g) => Ok((st.0, Some((g.0, insert_spec(g.1, line.take(e), line.skip(e + 1)))))),
            },
        }
    }
}

pub open spec fn parse_lines(lines: Seq<Seq<char>>) -> Result<ParseState, KeyfileError>
    decreases lines.len(),
{
    if lines.len() == 0 {
        Ok((Seq::empty(), None))
    } else {
        match parse_lines(lines.drop_last()) {
            Err(e) => Err(e),
            Ok(st) => parse_line(st, lines.last(), lines.len() - 1),
        }
    }
}

/// The groups a metadata text describes, or the first line that is refused.
pub open spec fn keyfile_spec(text: Seq<char>) -> Result<Seq<(Seq<char>, GroupView)>, KeyfileError> {
    match parse_lines(crate::text::split_spec(text, '\n')) {
        Ok(st) => Ok(flush(st)),
        Err(e) => Err(e),
    }
}

pub open spec fn cur_view(cur: Option<(String, Group)>) -> Option<(Seq<char>, GroupView)> {
    match cur {
        Some(g) => Some((g.0@, group_entries(g.1))),
        None => None,
    }
}

proof fn lemma_parse_error_persists(ls: Seq<Seq<char>>, k: int, m: int)
    requires
        0 <= k <= m <= ls.len(),
        parse_lines(ls.take(k)) is Err,
    ensures
        parse_lines(ls.take(m)) == parse_lines(ls.take(k)),
    decreases m - k,
{
    if m > k {
        lemma_parse_error_persists(ls, k, m - 1);
        assert(ls.take(m).drop_last() == ls.take(m - 1));
    }
}

fn find_char(s: &str, c: char) -> (r: Option<usize>)
    ensures
        match r {
            Some(e) => first_index(s@, c) == Some(e as int) && e < s@.len(),
            None => first_index(s@, c) is None,
        },
{
    let n = s.unicode_len();
    let mut i: usize = 0;
    assert(s@.skip(0) == s@);
    while i < n
        invariant
            n == s@.len(),
            i <= n,
            first_index(s@, c) == match first_index(s@.skip(i as int), c) {
                Some(j) => Some(j + i),
                None => None,
            },
        decreases n - i,
    {
        assert(s@.skip(i as int)[0] == s@[i as int]);
        assert(s@.skip(i as int).skip(1) == s@.skip(i + 1));
        if s.get_char(i) == c {
            return Some(i);
        }
        i = i + 1;
    }
    None
}

/// Parses grouped `key=value` text: `[name]` opens a group, blank lines and
/// lines starting with `#` are skipped; a repeated group or key keeps its
/// first place and takes the last value.
pub fn parse_keyfile(text: &str) -> (r: Result<Metadata, KeyfileError>)
    ensures
        match keyfile_spec(text@) {
            Ok(groups) => r matches Ok(m) && metadata_entries(m) == groups,
            Err(e) => r == Err::<Metadata, KeyfileError>(e),
        },
{
    let lines = crate::text::split_on(text, '\n');
    let ghost ls = crate::text::texts(lines@);
    assert(ls =~= crate::text::split_spec(text@, '\n'));
    let mut meta = new_metadata();
    let mut cur: Option<(String, Group)> = None;
    let mut i: usize = 0;
    assert(ls.take(0).len() == 0);
    while i < lines.len()
        invariant
            i <= lines@.len(),
            ls == crate::text::texts(lines@),
            ls == crate::text::split_spec(text@, '\n'),
            parse_lines(ls.take(i as int)) == Ok::<ParseState, KeyfileError>((metadata_entries(meta), cur_view(cur))),
        decreases lines@.len() - i,
    {
        assert(ls.take(i + 1).drop_last() == ls.take(i as int));
        assert(ls.take(i + 1).last() == lines@[i as int]@);
        let line = lines[i].as_str();
        let n = line.unicode_len();
        proof {
            if n >= 2 {
                assert(line@.last() == line@[n - 1]);
            }
        }
        let ghost st: ParseState = (metadata_entries(meta), cur_view(cur));
        let ghost next = parse_line(st, line@, i as int);
        assert(ls.take(i + 1).len() - 1 == i);
        assert(parse_lines(ls.take(i + 1)) == next);
        if n == 0 || line.get_char(0) == '#' {
        } else if n >= 2 && line.get_char(0) == '[' && line.get_char(n - 1) == ']' {
            match cur {
                Some((name, g)) => metadata_insert(&mut meta, name, g),
                None => {},
            }
            assert(metadata_entries(meta) == flush(st));
            let name = line.substring_char(1, n - 1).to_owned();
            cur = Some((name, new_group()));
            assert(next == Ok::<ParseState, KeyfileError>((flush(st), Some((name@, Seq::empty())))));
        } else {
            match find_char(line, '=') {
                None => {
                    assert(!is_header(line@));
                    assert(ls.take(i + 1).len() - 1 == i);
                    assert(parse_lines(ls.take(i + 1)) == Err::<ParseState, KeyfileError>(KeyfileError::InvalidLine { line: i }));
                    proof {
                        lemma_parse_error_persists(ls, i + 1, ls.len() as int);
                        assert(ls.take(ls.len() as int) == ls);
                    }
                    return Err(KeyfileError::InvalidLine { line: i });
                },
                Some(e) => {
                    match cur {
                        None => {
                            assert(!is_header(line@));
                            assert(ls.take(i + 1).len() - 1 == i);
                            assert(parse_lines(ls.take(i + 1)) == Err::<ParseState, KeyfileError>(KeyfileError::EntryOutsideGroup { line: i }));
                            proof {
                                lemma_parse_error_persists(ls, i + 1, ls.len() as int);
                                assert(ls.take(ls.len() as int) == ls);
                            }
                            return Err(KeyfileError::EntryOutsideGroup { line: i });
                        },
                        Some((name, g)) => {
                            assert(!(line@.len() == 0 || line@[0] == '#'));
                            assert(!is_header(line@));
                            assert(first_index(line@, '=') == Some(e as int));
                            assert(st.1 == Some((name@, group_entries(g))));
                            let mut g = g;
                            let key = line.substring_char(0, e).to_owned();
                            let value = line.substring_char(e + 1, n).to_owned();
                            assert(key@ =~= line@.take(e as int));
                            assert(value@ =~= line@.skip(e + 1));
                            group_insert(&mut g, key, value);
                            cur = Some((name, g));
                            assert(next == Ok::<ParseState, KeyfileError>((st.0, Some((name@, group_entries(g))))));
                        },
                    }
                },
            }
        }
        i = i + 1;
    }
    assert(ls.take(i as int) == ls);
    match cur {
        Some((name, g)) => metadata_insert(&mut meta, name, g),
        None => {},
    }
    Ok(meta)
}

} // verus!
