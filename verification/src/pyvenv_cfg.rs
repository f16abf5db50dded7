//! The `key = value` settings of a `pyvenv.cfg` file.
use vstd::prelude::*;
use crate::text::{
    char_index, chars_of, find_char_from, lemma_char_index, lemma_char_index_append, spec_is_whitespace, str_eq, substring,
    trim, trim_end, trim_start, trimmed,
};

verus! {

/// The setting that one line of `pyvenv.cfg` gives: the text before its first `=` and
/// the text after it, each trimmed of whitespace; a line without `=` gives none.
pub open spec fn spec_cfg_line(line: Seq<char>) -> Option<(Seq<char>, Seq<char>)> {
    match char_index(line, '=') {
        Some(i) => Some((trimmed(line.take(i)), trimmed(line.skip(i + 1)))),
        None => None,
    }
}

/// The settings that a sequence of lines gives, a later line overriding an earlier one
/// with the same key.
pub open spec fn cfg_of_lines(lines: Seq<Seq<char>>) -> Map<Seq<char>, Seq<char>>
    decreases lines.len(),
{
    if lines.len() == 0 {
        Map::empty()
    } else {
        match spec_cfg_line(lines.last()) {
            Some((k, v)) => cfg_of_lines(lines.drop_last()).insert(k, v),
            None => cfg_of_lines(lines.drop_last()),
        }
    }
}

/// The views of a sequence of strings.
pub open spec fn views(lines: Seq<String>) -> Seq<Seq<char>> {
    lines.map_values(|l: String| l@)
}

/// The map that a list of assignments builds, a later assignment overriding an earlier one.
pub open spec fn map_of_entries(e: Seq<(String, String)>) -> Map<Seq<char>, Seq<char>>
    decreases e.len(),
{
    if e.len() == 0 {
        Map::empty()
    } else {
        map_of_entries(e.drop_last()).insert(e.last().0@, e.last().1@)
    }
}

/// A key is in the map exactly when some assignment has it.
proof fn lemma_map_of_entries_has(e: Seq<(String, String)>, k: Seq<char>)
    ensures
        map_of_entries(e).contains_key(k) <==> exists|j: int| 0 <= j < e.len() && e[j].0@ == k,
    decreases e.len(),
{
    if e.len() > 0 {
        let d = e.drop_last();
        lemma_map_of_entries_has(d, k);
        if e.last().0@ != k {
            if map_of_entries(e).contains_key(k) {
                let j = choose|j: int| 0 <= j < d.len() && d[j].0@ == k;
                assert(e[j].0@ == k);
            }
            if exists|j: int| 0 <= j < e.len() && e[j].0@ == k {
                let j = choose|j: int| 0 <= j < e.len() && e[j].0@ == k;
                assert(d[j].0@ == k);
            }
        } else {
            assert(e[e.len() - 1].0@ == k);
        }
    }
}

/// The value of a key is that of the last assignment that has it.
proof fn lemma_map_of_entries_last(e: Seq<(String, String)>, k: Seq<char>, j: int)
    requires
        0 <= j < e.len(),
        e[j].0@ == k,
        forall|l: int| j < l < e.len() ==> e[l].0@ != k,
    ensures
        map_of_entries(e).contains_key(k),
        map_of_entries(e)[k] == e[j].1@,
    decreases e.len(),
{
    if j < e.len() - 1 {
        let d = e.drop_last();
        assert(d[j] == e[j]);
        assert forall|l: int| j < l < d.len() implies d[l].0@ != k by {
            assert(d[l] == e[l]);
        }
        lemma_map_of_entries_last(d, k, j);
        assert(e.last().0@ != k);
    }
}

/// The settings read from a `pyvenv.cfg` file.
pub struct PyvenvCfg {
    entries: Vec<(String, String)>,
}

impl View for PyvenvCfg {
    type V = Map<Seq<char>, Seq<char>>;

    closed spec fn view(&self) -> Map<Seq<char>, Seq<char>> {
        map_of_entries(self.entries@)
    }
}

impl PyvenvCfg {
    /// No settings.
    pub fn new() -> (r: PyvenvCfg)
        ensures
            r@ == Map::<Seq<char>, Seq<char>>::empty(),
    {
        PyvenvCfg { entries: Vec::new() }
    }

    /// Sets `key` to `value`, replacing any earlier value of `key`.
    pub fn insert(&mut self, key: String, value: String)
        ensures
            final(self)@ == old(self)@.insert(key@, value@),
    {
        let ghost e = self.entries@;
        self.entries.push((key, value));
        assert(self.entries@.drop_last() =~= e);
    }

    /// The value of `key`, if it is set.
    pub fn get(&self, key: &str) -> (r: Option<String>)
        ensures
            r matches Some(v) ==> self@.contains_key(key@) && self@[key@] == v@,
            r is None ==> !self@.contains_key(key@),
    {
        let n = self.entries.len();
        let mut i: usize = n;
        while i > 0
            invariant
                i <= n,
                n == self.entries@.len(),
                forall|l: int| i <= l < n ==> self.entries@[l].0@ != key@,
            decreases i,
        {
            if str_eq(self.entries[i - 1].0.as_str(), key) {
                proof {
                    lemma_map_of_entries_last(self.entries@, key@, i - 1);
                }
                return Some(self.entries[i - 1].1.clone());
            }
            i = i - 1;
        }
        proof {
            lemma_map_of_entries_has(self.entries@, key@);
        }
        None
    }
}

/// The setting that one line of `pyvenv.cfg` gives, if it has an `=`: the key and the
/// value around its first `=`, trimmed of whitespace.
pub fn parse_cfg_line(line: &str) -> (r: Option<(String, String)>)
    ensures
        r matches Some((k, v)) ==> spec_cfg_line(line@) == Some((k@, v@)),
        r is None ==> spec_cfg_line(line@) is None,
{
    let chars = chars_of(line);
    match find_char_from(&chars, '=', 0) {
        Some(i) => {
            assert(chars@.skip(0) =~= chars@);
            proof {
                lemma_char_index(chars@, '=');
            }
            let key_part = substring(line, 0, i);
            let value_part = substring(line, i + 1, chars.len());
            assert(line@.subrange(0, i as int) =~= line@.take(i as int));
            assert(line@.subrange(i + 1, line@.len() as int) =~= line@.skip(i + 1));
            assert(char_index(line@, '=') == Some(i as int));
            let k = trim(key_part.as_str());
            let v = trim(value_part.as_str());
            assert(k@ == trimmed(line@.take(i as int)));
            assert(v@ == trimmed(line@.skip(i + 1)));
            Some((k, v))
        },
        None => {
            assert(chars@.skip(0) =~= chars@);
            None
        },
    }
}

/// The settings of a `pyvenv.cfg` file, given its lines: each line with an `=` sets
/// the trimmed text before its first `=` to the trimmed text after it, a later line
/// overriding an earlier one; other lines are ignored.
pub fn parse_pyvenv_cfg(lines: &Vec<String>) -> (r: PyvenvCfg)
    ensures
        r@ == cfg_of_lines(views(lines@)),
{
    let mut cfg = PyvenvCfg::new();
    let mut i: usize = 0;
    while i < lines.len()
        invariant
            i <= lines.len(),
            cfg@ == cfg_of_lines(views(lines@).take(i as int)),
        decreases lines.len() - i,
    {
        assert(views(lines@).take(i + 1).drop_last() =~= views(lines@).take(i as int));
        assert(views(lines@).take(i + 1).last() == lines@[i as int]@);
        if let Some((k, v)) = parse_cfg_line(lines[i].as_str()) {
            cfg.insert(k, v);
        }
        i = i + 1;
    }
    assert(views(lines@).take(lines.len() as int) =~= views(lines@));
    cfg
}

/// Law: a line `key = value` sets `key` to `value` whatever came before it.
pub proof fn law_last_line_wins(lines: Seq<Seq<char>>, line: Seq<char>, k: Seq<char>, v: Seq<char>)
    requires
        spec_cfg_line(line) == Some((k, v)),
    ensures
        cfg_of_lines(lines.push(line)).contains_key(k),
        cfg_of_lines(lines.push(line))[k] == v,
{
    assert(lines.push(line).drop_last() =~= lines);
}

/// Law: a line without `=` changes no setting.
pub proof fn law_line_without_equals_is_ignored(lines: Seq<Seq<char>>, line: Seq<char>)
    requires
        forall|j: int| 0 <= j < line.len() ==> line[j] != '=',
    ensures
        cfg_of_lines(lines.push(line)) == cfg_of_lines(lines),
{
    lemma_char_index(line, '=');
    assert(lines.push(line).drop_last() =~= lines);
}

/// Law: no key that parsing gives holds an `=`.
pub proof fn law_keys_hold_no_equals(lines: Seq<Seq<char>>, k: Seq<char>)
    requires
        cfg_of_lines(lines).contains_key(k),
    ensures
        forall|j: int| 0 <= j < k.len() ==> k[j] != '=',
    decreases lines.len(),
{
    if lines.len() > 0 {
        let last = lines.last();
        match spec_cfg_line(last) {
            Some((k2, v2)) => {
                if k2 == k {
                    lemma_char_index(last, '=');
                    let i = char_index(last, '=')->0;
                    lemma_trimmed_within(last.take(i));
                    assert forall|j: int| 0 <= j < k.len() implies k[j] != '=' by {
                        let m = choose|m: int| 0 <= m < last.take(i).len() && last.take(i)[m] == k[j];
                        assert(last.take(i)[m] == last[m]);
                    }
                } else {
                    law_keys_hold_no_equals(lines.drop_last(), k);
                }
            },
            None => {
                law_keys_hold_no_equals(lines.drop_last(), k);
            },
        }
    }
}

/// Every character of a trimmed string is a character of the string.
proof fn lemma_trimmed_within(s: Seq<char>)
    ensures
        forall|j: int| 0 <= j < trimmed(s).len() ==> exists|m: int| 0 <= m < s.len() && s[m] == #[trigger] trimmed(s)[j],
{
    lemma_trim_start_within(s);
    lemma_trim_end_within(crate::text::trim_start(s));
}

proof fn lemma_trim_start_within(s: Seq<char>)
    ensures
        exists|a: int| 0 <= a <= s.len() && crate::text::trim_start(s) == s.skip(a),
    decreases s.len(),
{
    if s.len() > 0 && crate::text::spec_is_whitespace(s[0]) {
        lemma_trim_start_within(s.drop_first());
        let a = choose|a: int| 0 <= a <= s.drop_first().len() && crate::text::trim_start(s.drop_first()) == s.drop_first().skip(a);
        assert(s.drop_first().skip(a) =~= s.skip(a + 1));
    } else {
        assert(s.skip(0) =~= s);
    }
}

proof fn lemma_trim_end_within(s: Seq<char>)
    ensures
        exists|b: int| 0 <= b <= s.len() && crate::text::trim_end(s) == s.take(b),
    decreases s.len(),
{
    if s.len() > 0 && crate::text::spec_is_whitespace(s.last()) {
        lemma_trim_end_within(s.drop_last());
        let b = choose|b: int| 0 <= b <= s.drop_last().len() && crate::text::trim_end(s.drop_last()) == s.drop_last().take(b);
        assert(s.drop_last().take(b) =~= s.take(b));
    } else {
        assert(s.take(s.len() as int) =~= s);
    }
}

/// A `pyvenv.cfg` line in the `key = value` form.
pub open spec fn cfg_line(k: Seq<char>, v: Seq<char>) -> Seq<char> {
    k + seq![' ', '=', ' '] + v
}

proof fn lemma_trim_start_len(s: Seq<char>)
    ensures
        trim_start(s).len() <= s.len(),
    decreases s.len(),
{
    if s.len() > 0 && spec_is_whitespace(s[0]) {
        lemma_trim_start_len(s.drop_first());
    }
}

proof fn lemma_trim_end_len(s: Seq<char>)
    ensures
        trim_end(s).len() <= s.len(),
    decreases s.len(),
{
    if s.len() > 0 && spec_is_whitespace(s.last()) {
        lemma_trim_end_len(s.drop_last());
    }
}

/// A trimmed string starts and ends with a character that is not whitespace.
proof fn lemma_trimmed_ends(k: Seq<char>)
    requires
        trimmed(k) == k,
    ensures
        trim_start(k) == k,
        trim_end(k) == k,
        k.len() > 0 ==> !spec_is_whitespace(k[0]) && !spec_is_whitespace(k.last()),
{
    lemma_trim_end_len(trim_start(k));
    if k.len() > 0 && spec_is_whitespace(k[0]) {
        lemma_trim_start_len(k.drop_first());
        assert(false);
    }
    if k.len() > 0 && spec_is_whitespace(k.last()) {
        lemma_trim_end_len(k.drop_last());
        assert(false);
    }
}

proof fn lemma_trim_space_after(k: Seq<char>)
    requires
        trimmed(k) == k,
    ensures
        trimmed(k.push(' ')) == k,
{
    lemma_trimmed_ends(k);
    let s = k.push(' ');
    assert(spec_is_whitespace(' '));
    assert(s.drop_last() =~= k);
    if k.len() == 0 {
        assert(s.drop_first() =~= k);
        assert(trim_start(s) == trim_start(k));
    } else {
        assert(s[0] == k[0]);
        assert(trim_start(s) == s);
    }
}

proof fn lemma_trim_space_before(v: Seq<char>)
    requires
        trimmed(v) == v,
    ensures
        trimmed(seq![' '] + v) == v,
{
    lemma_trimmed_ends(v);
    let s = seq![' '] + v;
    assert(spec_is_whitespace(' '));
    assert(s.drop_first() =~= v);
    assert(trim_start(s) == trim_start(v));
}

/// Law: a line `key = value` reads back as that key and value, where the key holds no
/// `=` and neither has leading or trailing whitespace.
pub proof fn law_setting_line_round_trip(k: Seq<char>, v: Seq<char>)
    requires
        forall|j: int| 0 <= j < k.len() ==> k[j] != '=',
        trimmed(k) == k,
        trimmed(v) == v,
    ensures
        spec_cfg_line(cfg_line(k, v)) == Some((k, v)),
{
    let a = k.push(' ');
    let b = seq!['=', ' '] + v;
    let line = cfg_line(k, v);
    assert(line =~= a + b);
    assert forall|j: int| 0 <= j < a.len() implies a[j] != '=' by {
        if j < k.len() {
            assert(a[j] == k[j]);
        }
    }
    lemma_char_index_append(a, b, '=');
    assert(b[0] == '=');
    assert(char_index(b, '=') == Some(0int));
    assert(char_index(line, '=') == Some(k.len() as int + 1));
    assert(line.take(k.len() as int + 1) =~= a);
    assert(line.skip(k.len() as int + 2) =~= seq![' '] + v);
    lemma_trim_space_after(k);
    lemma_trim_space_before(v);
}

/// Law: after `insert`, `get` of the same key gives the inserted value, and every other
/// key keeps what it had.
pub proof fn law_get_after_insert(
    before: Map<Seq<char>, Seq<char>>,
    k: Seq<char>,
    v: Seq<char>,
    other: Seq<char>,
)
    requires
        other != k,
    ensures
        before.insert(k, v).contains_key(k),
        before.insert(k, v)[k] == v,
        before.insert(k, v).contains_key(other) == before.contains_key(other),
        before.contains_key(other) ==> before.insert(k, v)[other] == before[other],
{
}

} // verus!
