//! The side table that maps application identifiers to launcher paths,
//! stored as lines `name;path`.
use vstd::prelude::*;
use vstd::utf8::{decode_utf8, encode_utf8, valid_utf8};
use crate::frame::same_text;
use crate::xprop::utf8_string;
use crate::record::{DELIM, NEWLINE};

verus! {

pub const CARRIAGE_RETURN: u8 = 13;

/// The pieces of `b` between occurrences of `sep`; there is always at least one.
pub open spec fn split_on(b: Seq<u8>, sep: u8) -> Seq<Seq<u8>>
    decreases b.len(),
{
    if b.len() == 0 {
        seq![Seq::empty()]
    } else {
        let s = split_on(b.drop_last(), sep);
        if b.last() == sep {
            s.push(Seq::empty())
        } else {
            s.update(s.len() - 1, s.last().push(b.last()))
        }
    }
}

/// A line without the carriage return that may end it.
pub open spec fn strip_cr(line: Seq<u8>) -> Seq<u8> {
    if line.len() > 0 && line.last() == CARRIAGE_RETURN {
        line.drop_last()
    } else {
        line
    }
}

/// The mapping that a line holds: exactly two fields, each valid UTF-8.
pub open spec fn entry_of(line: Seq<u8>) -> Option<(Seq<char>, Seq<char>)> {
    let fields = split_on(strip_cr(line), DELIM);
    if fields.len() == 2 && valid_utf8(fields[0]) && valid_utf8(fields[1]) {
        Some((decode_utf8(fields[0]), decode_utf8(fields[1])))
    } else {
        None
    }
}

/// No identifier appears twice.
pub open spec fn unique_keys(t: Seq<(Seq<char>, Seq<char>)>) -> bool {
    forall|i: int, j: int| 0 <= i < j < t.len() ==> t[i].0 != t[j].0
}

/// The position of `key` in the table, if it is there.
pub open spec fn key_index(t: Seq<(Seq<char>, Seq<char>)>, key: Seq<char>) -> Option<int> {
    if exists|i: int| 0 <= i < t.len() && t[i].0 == key {
        Some(choose|i: int| 0 <= i < t.len() && t[i].0 == key)
    } else {
        None
    }
}

/// The table with `key` mapped to `value`: an existing mapping is replaced
/// where it stands, a new one goes last.
pub open spec fn inserted(t: Seq<(Seq<char>, Seq<char>)>, key: Seq<char>, value: Seq<char>) -> Seq<(Seq<char>, Seq<char>)> {
    match key_index(t, key) {
        Some(i) => t.update(i, (key, value)),
        None => t.push((key, value)),
    }
}

/// The table built from `lines` in order, later lines winning.
pub open spec fn table_of_lines(lines: Seq<Seq<u8>>) -> Seq<(Seq<char>, Seq<char>)>
    decreases lines.len(),
{
    if lines.len() == 0 {
        Seq::empty()
    } else {
        let t = table_of_lines(lines.drop_last());
        match entry_of(lines.last()) {
            Some(e) => inserted(t, e.0, e.1),
            None => t,
        }
    }
}

/// The table that a file's bytes hold. A line that is not two fields is
/// skipped; so is the empty piece after a final newline.
pub open spec fn table_of(text: Seq<u8>) -> Seq<(Seq<char>, Seq<char>)> {
    table_of_lines(split_on(text, NEWLINE))
}

/// The bytes of the table's lines.
pub open spec fn rendered(t: Seq<(Seq<char>, Seq<char>)>) -> Seq<u8>
    decreases t.len(),
{
    if t.len() == 0 {
        Seq::empty()
    } else {
        rendered(t.drop_last()) + encode_utf8(t.last().0) + seq![DELIM] + encode_utf8(t.last().1)
            + seq![NEWLINE]
    }
}

/// The contents of each byte vector.
pub open spec fn byte_views(v: Seq<Vec<u8>>) -> Seq<Seq<u8>> {
    v.map_values(|b: Vec<u8>| b@)
}

/// Splits `b` at each occurrence of `sep`.
pub fn split_bytes(b: &Vec<u8>, sep: u8) -> (r: Vec<Vec<u8>>)
    ensures
        byte_views(r@) == split_on(b@, sep),
{
    let mut done: Vec<Vec<u8>> = Vec::new();
    let mut cur: Vec<u8> = Vec::new();
    let mut i: usize = 0;
    while i < b.len()
        invariant
            i <= b@.len(),
            byte_views(done@).push(cur@) == split_on(b@.subrange(0, i as int), sep),
        decreases b@.len() - i,
    {
        let ghost prefix = b@.subrange(0, i as int + 1);
        assert(prefix.drop_last() =~= b@.subrange(0, i as int));
        let ghost old_done = done@;
        if b[i] == sep {
            let piece = cur;
            cur = Vec::new();
            done.push(piece);
            assert(byte_views(done@) =~= byte_views(old_done).push(piece@));
            assert(byte_views(done@).push(cur@) =~= split_on(prefix, sep));
        } else {
            let ghost old_cur = cur@;
            cur.push(b[i]);
            assert(byte_views(done@).push(cur@) =~= byte_views(done@).push(old_cur).update(
                done@.len() as int, old_cur.push(b@[i as int])));
        }
        i = i + 1;
    }
    assert(b@.subrange(0, i as int) =~= b@);
    let ghost old_done = done@;
    done.push(cur);
    assert(byte_views(done@) =~= byte_views(old_done).push(cur@));
    done
}

/// The mapping that a line holds, if it is two fields of text.
fn parse_entry(line: &Vec<u8>) -> (r: Option<(String, String)>)
    ensures
        r matches Some(e) ==> entry_of(line@) == Some((e.0@, e.1@)),
        r is None ==> entry_of(line@) is None,
{
    let n = line.len();
    let body = if n > 0 && line[n - 1] == CARRIAGE_RETURN {
        vstd::slice::slice_to_vec(vstd::slice::slice_subrange(line.as_slice(), 0, n - 1))
    } else {
        line.clone()
    };
    assert(body@ =~= strip_cr(line@));
    let mut fields = split_bytes(&body, DELIM);
    if fields.len() != 2 {
        return None;
    }
    assert(fields@[0]@ == byte_views(fields@)[0]);
    assert(fields@[1]@ == byte_views(fields@)[1]);
    let value = fields.pop().unwrap();
    let key = fields.pop().unwrap();
    match (utf8_string(key), utf8_string(value)) {
        (Some(k), Some(v)) => Some((k, v)),
        _ => None,
    }
}

/// Application identifiers mapped to the paths of their launchers.
pub struct AppInfoTable {
    entries: Vec<(String, String)>,
}

impl View for AppInfoTable {
    type V = Seq<(Seq<char>, Seq<char>)>;

    closed spec fn view(&self) -> Seq<(Seq<char>, Seq<char>)> {
        self.entries@.map_values(|e: (String, String)| (e.0@, e.1@))
    }
}

impl AppInfoTable {
    /// An empty table.
    pub fn new() -> (r: Self)
        ensures
            r@ == Seq::<(Seq<char>, Seq<char>)>::empty(),
    {
        let r = AppInfoTable { entries: Vec::new() };
        assert(r@ =~= Seq::<(Seq<char>, Seq<char>)>::empty());
        r
    }

    /// The position of `name` in the table.
    fn position(&self, name: &str) -> (r: Option<usize>)
        requires
            unique_keys(self@),
        ensures
            r matches Some(i) ==> key_index(self@, name@) == Some(i as int),
            r is None ==> key_index(self@, name@) is None,
    {
        let mut i: usize = 0;
        while i < self.entries.len()
            invariant
                i <= self@.len(),
                self@.len() == self.entries@.len(),
                unique_keys(self@),
                forall|k: int| 0 <= k < i ==> self@[k].0 != name@,
            decreases self.entries@.len() - i,
        {
            assert(self@[i as int].0 == self.entries@[i as int].0@);
            if same_text(self.entries[i].0.as_str(), name) {
                assert(self@[i as int].0 == name@);
                let ghost j = choose|j: int| 0 <= j < self@.len() && self@[j].0 == name@;
                assert(0 <= j < self@.len() && self@[j].0 == name@);
                proof {
                    if j < i {
                        assert(self@[j].0 != self@[i as int].0);
                    } else if j > i {
                        assert(self@[i as int].0 != self@[j].0);
                    }
                }
                return Some(i);
            }
            i = i + 1;
        }
        None
    }

    /// Whether `name` has a launcher path in the table.
    pub fn contains_key(&self, name: &str) -> (r: bool)
        requires
            unique_keys(self@),
        ensures
            r == key_index(self@, name@) is Some,
    {
        self.position(name).is_some()
    }

    /// Maps `name` to `path`, replacing an earlier mapping of `name`.
    pub fn insert(&mut self, name: String, path: String)
        requires
            unique_keys(old(self)@),
        ensures
            final(self)@ == inserted(old(self)@, name@, path@),
            unique_keys(final(self)@),
    {
        let ghost key = name@;
        let ghost value = path@;
        match self.position(name.as_str()) {
            Some(i) => {
                self.entries.set(i, (name, path));
                assert(self@ =~= old(self)@.update(i as int, (key, value)));
            },
            None => {
                self.entries.push((name, path));
                assert(self@ =~= old(self)@.push((key, value)));
            },
        }
    }

    /// Reads the table from a file's bytes; `None` if they are not UTF-8 text.
    pub fn parse(text: &Vec<u8>) -> (r: Option<Self>)
        ensures
            r is Some <==> valid_utf8(text@),
            r matches Some(t) ==> t@ == table_of(text@) && unique_keys(t@),
    {
        if utf8_string(text.clone()).is_none() {
            return None;
        }
        let lines = split_bytes(text, NEWLINE);
        let mut table = AppInfoTable::new();
        let mut i: usize = 0;
        while i < lines.len()
            invariant
                i <= lines@.len(),
                unique_keys(table@),
                table@ == table_of_lines(byte_views(lines@).subrange(0, i as int)),
            decreases lines@.len() - i,
        {
            assert(byte_views(lines@).subrange(0, i as int + 1).drop_last()
                =~= byte_views(lines@).subrange(0, i as int));
            assert(byte_views(lines@)[i as int] == lines@[i as int]@);
            match parse_entry(&lines[i]) {
                Some(e) => table.insert(e.0, e.1),
                None => {},
            }
            i = i + 1;
        }
        assert(byte_views(lines@).subrange(0, i as int) =~= byte_views(lines@));
        Some(table)
    }

    /// The bytes of the table's lines, `name;path` each.
    pub fn render(&self) -> (r: Vec<u8>)
        ensures
            r@ == rendered(self@),
    {
        let mut r: Vec<u8> = Vec::new();
        let mut i: usize = 0;
        while i < self.entries.len()
            invariant
                i <= self.entries@.len(),
                self@.len() == self.entries@.len(),
                r@ == rendered(self@.subrange(0, i as int)),
            decreases self.entries@.len() - i,
        {
            let ghost before = r@;
            assert(self@.subrange(0, i as int + 1).drop_last() =~= self@.subrange(0, i as int));
            assert(self@[i as int] == (self.entries@[i as int].0@, self.entries@[i as int].1@));
            let mut key = vstd::slice::slice_to_vec(self.entries[i].0.as_str().as_bytes());
            let mut value = vstd::slice::slice_to_vec(self.entries[i].1.as_str().as_bytes());
            r.append(&mut key);
            r.push(DELIM);
            r.append(&mut value);
            r.push(NEWLINE);
            i = i + 1;
            assert(r@ =~= rendered(self@.subrange(0, i as int)));
        }
        assert(self@.subrange(0, i as int) =~= self@);
        r
    }
}

} // verus!
