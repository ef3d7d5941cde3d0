//! The user's aliases: a mapping from alias name to command, kept ordered
//! by name.
use vstd::prelude::*;
use crate::text::{chars_of, str_equals};

verus! {

/// `a` sorts before `b` when both agree before position `i`: the order of
/// their characters from `i` on, by code point, a proper prefix first.
pub open spec fn key_less_from(a: Seq<char>, b: Seq<char>, i: int) -> bool
    decreases a.len() - i,
{
    if i < 0 || i >= a.len() {
        i >= 0 && i < b.len()
    } else if i >= b.len() {
        false
    } else if a[i] != b[i] {
        (a[i] as int) < (b[i] as int)
    } else {
        key_less_from(a, b, i + 1)
    }
}

/// Lexicographic order of names by code point, as `String`'s `Ord` orders them.
pub open spec fn key_less(a: Seq<char>, b: Seq<char>) -> bool {
    key_less_from(a, b, 0)
}

/// No name sorts before itself.
pub proof fn lemma_key_less_irreflexive(a: Seq<char>, i: int)
    requires
        0 <= i,
    ensures
        !key_less_from(a, a, i),
    decreases a.len() - i,
{
    if i < a.len() {
        lemma_key_less_irreflexive(a, i + 1);
    }
}

/// The order of names is transitive.
pub proof fn lemma_key_less_transitive(a: Seq<char>, b: Seq<char>, c: Seq<char>, i: int)
    requires
        0 <= i,
        key_less_from(a, b, i),
        key_less_from(b, c, i),
    ensures
        key_less_from(a, c, i),
    decreases a.len() - i,
{
    if i < a.len() && i < b.len() && i < c.len() && a[i] == b[i] && b[i] == c[i] {
        lemma_key_less_transitive(a, b, c, i + 1);
    }
}

/// Two different names are ordered one way or the other.
pub proof fn lemma_key_less_total(a: Seq<char>, b: Seq<char>, i: int)
    requires
        0 <= i <= a.len(),
        i <= b.len(),
        a.subrange(0, i) == b.subrange(0, i),
        a != b,
    ensures
        key_less_from(a, b, i) || key_less_from(b, a, i),
    decreases a.len() - i,
{
    if i == a.len() && i == b.len() {
        assert(a =~= a.subrange(0, i));
        assert(b =~= b.subrange(0, i));
    } else if i < a.len() && i < b.len() && a[i] == b[i] {
        assert(a.subrange(0, i + 1) =~= a.subrange(0, i).push(a[i]));
        assert(b.subrange(0, i + 1) =~= b.subrange(0, i).push(b[i]));
        lemma_key_less_total(a, b, i + 1);
    } else if i < a.len() && i < b.len() {
        assert(a[i] as int != b[i] as int);
    }
}

/// Whether `a` sorts before `b`.
pub fn key_less_exec(a: &str, b: &str) -> (r: bool)
    ensures
        r == key_less(a@, b@),
{
    let x = chars_of(a);
    let y = chars_of(b);
    let mut i: usize = 0;
    while i < x.len() && i < y.len()
        invariant
            x@ == a@,
            y@ == b@,
            i <= x.len(),
            i <= y.len(),
            key_less(a@, b@) == key_less_from(a@, b@, i as int),
        decreases x.len() - i,
    {
        if x[i] != y[i] {
            return x[i] < y[i];
        }
        i += 1;
    }
    i < y.len()
}

/// Entries whose names strictly increase: sorted, no name twice.
pub open spec fn sorted_by_name(s: Seq<(String, String)>) -> bool {
    forall|i: int, j: int| 0 <= i < j < s.len() ==> key_less(#[trigger] s[i].0@, #[trigger] s[j].0@)
}

/// Some entry of `s` is named `k`.
pub open spec fn has_name(s: Seq<(String, String)>, k: Seq<char>) -> bool {
    exists|i: int| 0 <= i < s.len() && (#[trigger] s[i]).0@ == k
}

/// The mapping from name to command that `s` holds.
pub open spec fn entries_map(s: Seq<(String, String)>) -> Map<Seq<char>, Seq<char>> {
    Map::new(
        |k: Seq<char>| has_name(s, k),
        |k: Seq<char>| s[choose|i: int| 0 <= i < s.len() && (#[trigger] s[i]).0@ == k].1@,
    )
}

/// In sorted entries, the entry at `i` is what the mapping holds for its name.
pub proof fn lemma_entries_map_at(s: Seq<(String, String)>, i: int)
    requires
        sorted_by_name(s),
        0 <= i < s.len(),
    ensures
        entries_map(s).contains_key(s[i].0@),
        entries_map(s)[s[i].0@] == s[i].1@,
{
    let k = s[i].0@;
    assert(has_name(s, k));
    let j = choose|j: int| 0 <= j < s.len() && (#[trigger] s[j]).0@ == k;
    lemma_key_less_irreflexive(k, 0);
    if j < i {
        assert(key_less(s[j].0@, s[i].0@));
    } else if j > i {
        assert(key_less(s[i].0@, s[j].0@));
    }
}

/// Why an alias name was refused.
#[derive(Debug, Clone, Copy, PartialEq, Eq, Structural)]
pub enum AliasNameError {
    /// The name is empty.
    Empty,
    /// The name holds a character other than ASCII letters, digits, `_`, `-`.
    InvalidCharacters,
}

impl AliasNameError {
    /// A sentence for the user.
    pub fn message(&self) -> (r: &'static str)
        ensures
            r@ == match self {
                AliasNameError::Empty => "Alias name cannot be empty!"@,
                AliasNameError::InvalidCharacters => "Alias name can only contain alphanumeric characters, underscores, or hyphens!"@,
            },
    {
        match self {
            AliasNameError::Empty => "Alias name cannot be empty!",
            AliasNameError::InvalidCharacters => "Alias name can only contain alphanumeric characters, underscores, or hyphens!",
        }
    }
}

/// A character allowed in an alias name.
pub open spec fn is_name_char(c: char) -> bool {
    ('a' <= c && c <= 'z') || ('A' <= c && c <= 'Z') || ('0' <= c && c <= '9') || c == '_' || c == '-'
}

/// Every character of `name` is allowed in an alias name.
pub open spec fn valid_name_chars(name: Seq<char>) -> bool {
    forall|i: int| 0 <= i < name.len() ==> is_name_char(#[trigger] name[i])
}

/// Whether `c` is allowed in an alias name.
pub fn is_name_char_exec(c: char) -> (r: bool)
    ensures
        r == is_name_char(c),
{
    ('a' <= c && c <= 'z') || ('A' <= c && c <= 'Z') || ('0' <= c && c <= '9') || c == '_' || c == '-'
}

/// The user's aliases, ordered by name.
pub struct AliasStore {
    aliases: Vec<(String, String)>,
}

impl View for AliasStore {
    type V = Map<Seq<char>, Seq<char>>;

    closed spec fn view(&self) -> Map<Seq<char>, Seq<char>> {
        entries_map(self.aliases@)
    }
}

impl AliasStore {
    /// The entries are ordered by name, with no name twice.
    pub closed spec fn wf(&self) -> bool {
        sorted_by_name(self.aliases@)
    }

    /// A store with no aliases.
    pub fn new_store() -> (r: Self)
        ensures
            r.wf(),
            r@ == Map::<Seq<char>, Seq<char>>::empty(),
    {
        let r = AliasStore { aliases: Vec::new() };
        assert(r@ =~= Map::<Seq<char>, Seq<char>>::empty());
        r
    }

    /// The position of the entry named `name`, if any.
    fn position_of(&self, name: &str) -> (r: Option<usize>)
        requires
            self.wf(),
        ensures
            match r {
                Some(p) => p < self.aliases.len() && self.aliases@[p as int].0@ == name@,
                None => !has_name(self.aliases@, name@),
            },
    {
        let mut p: usize = 0;
        while p < self.aliases.len()
            invariant
                p <= self.aliases.len(),
                forall|i: int| 0 <= i < p ==> (#[trigger] self.aliases@[i]).0@ != name@,
            decreases self.aliases.len() - p,
        {
            if str_equals(self.aliases[p].0.as_str(), name) {
                return Some(p);
            }
            p += 1;
        }
        None
    }

    /// Whether an alias named `alias_name` exists.
    pub fn has_key(&self, alias_name: &str) -> (r: bool)
        requires
            self.wf(),
        ensures
            r == self@.contains_key(alias_name@),
    {
        self.position_of(alias_name).is_some()
    }

    /// The command of alias `alias_name`, if it exists.
    pub fn get(&self, alias_name: &str) -> (r: Option<&String>)
        requires
            self.wf(),
        ensures
            match r {
                Some(c) => self@.contains_key(alias_name@) && self@[alias_name@] == c@,
                None => !self@.contains_key(alias_name@),
            },
    {
        match self.position_of(alias_name) {
            Some(p) => {
                proof {
                    lemma_entries_map_at(self.aliases@, p as int);
                }
                Some(&self.aliases[p].1)
            },
            None => None,
        }
    }

    /// Whether the store holds no alias.
    pub fn is_empty(&self) -> (r: bool)
        requires
            self.wf(),
        ensures
            r == (self@ == Map::<Seq<char>, Seq<char>>::empty()),
    {
        if self.aliases.len() == 0 {
            assert(self@ =~= Map::<Seq<char>, Seq<char>>::empty());
            true
        } else {
            proof {
                lemma_entries_map_at(self.aliases@, 0);
            }
            false
        }
    }

    /// All aliases, in order of name.
    pub fn list_aliases(&self) -> (r: &Vec<(String, String)>)
        requires
            self.wf(),
        ensures
            sorted_by_name(r@),
            entries_map(r@) == self@,
    {
        &self.aliases
    }

    /// Sets alias `alias_name` to `command`; true when the name was new.
    pub fn add_alias(&mut self, alias_name: String, command: String) -> (r: bool)
        requires
            old(self).wf(),
        ensures
            final(self).wf(),
            final(self)@ == old(self)@.insert(alias_name@, command@),
            r == !old(self)@.contains_key(alias_name@),
    {
        let ghost old_s = self.aliases@;
        let ghost k = alias_name@;
        let mut p: usize = 0;
        while p < self.aliases.len() && key_less_exec(self.aliases[p].0.as_str(), alias_name.as_str())
            invariant
                self.aliases@ == old_s,
                k == alias_name@,
                sorted_by_name(old_s),
                p <= old_s.len(),
                forall|i: int| 0 <= i < p ==> key_less(#[trigger] old_s[i].0@, k),
            decreases old_s.len() - p,
        {
            p += 1;
        }
        proof {
            assert forall|j: int| p <= j < old_s.len() && old_s[p as int].0@ != k implies key_less(
                k,
                #[trigger] old_s[j].0@,
            ) by {
                assert(k.subrange(0, 0) =~= old_s[p as int].0@.subrange(0, 0));
                lemma_key_less_total(k, old_s[p as int].0@, 0);
                if j > p {
                    lemma_key_less_transitive(k, old_s[p as int].0@, old_s[j].0@, 0);
                }
            }
            assert forall|i: int| 0 <= i < p implies old_s[i].0@ != k by {
                lemma_key_less_irreflexive(k, 0);
            }
            assert forall|j: int| p <= j < old_s.len() && old_s[p as int].0@ != k implies old_s[j].0@ != k by {
                lemma_key_less_irreflexive(k, 0);
            }
        }
        let is_new = !(p < self.aliases.len() && str_equals(self.aliases[p].0.as_str(), alias_name.as_str()));
        if !is_new {
            self.aliases.remove(p);
        }
        self.aliases.insert(p, (alias_name, command));
        proof {
            let new_s = self.aliases@;
            if is_new {
                assert(new_s =~= old_s.insert(p as int, new_s[p as int]));
                assert(!has_name(old_s, k));
            } else {
                assert(new_s =~= old_s.update(p as int, new_s[p as int]));
                assert(has_name(old_s, k));
            }
            assert(sorted_by_name(new_s));
            assert forall|q: Seq<char>| q != k implies (has_name(new_s, q) <==> has_name(old_s, q))
                && (has_name(new_s, q) ==> entries_map(new_s)[q] == entries_map(old_s)[q]) by {
                if has_name(new_s, q) {
                    let i = choose|i: int| 0 <= i < new_s.len() && (#[trigger] new_s[i]).0@ == q;
                    let j = if is_new && i > p { i - 1 } else { i };
                    assert(old_s[j] == new_s[i]);
                    lemma_entries_map_at(new_s, i);
                    lemma_entries_map_at(old_s, j);
                }
                if has_name(old_s, q) {
                    let j = choose|j: int| 0 <= j < old_s.len() && (#[trigger] old_s[j]).0@ == q;
                    let i = if is_new && j >= p { j + 1 } else { j };
                    assert(new_s[i] == old_s[j]);
                }
            }
            lemma_entries_map_at(new_s, p as int);
            assert(entries_map(new_s) =~= entries_map(old_s).insert(k, command@));
        }
        is_new
    }

    /// Removes alias `alias_name`; true when it was there.
    pub fn remove_alias(&mut self, alias_name: &str) -> (r: bool)
        requires
            old(self).wf(),
        ensures
            final(self).wf(),
            final(self)@ == old(self)@.remove(alias_name@),
            r == old(self)@.contains_key(alias_name@),
    {
        let ghost old_s = self.aliases@;
        let ghost k = alias_name@;
        match self.position_of(alias_name) {
            None => {
                assert(entries_map(old_s) =~= entries_map(old_s).remove(k));
                false
            },
            Some(p) => {
                self.aliases.remove(p);
                proof {
                    let new_s = self.aliases@;
                    assert(new_s =~= old_s.remove(p as int));
                    lemma_key_less_irreflexive(k, 0);
                    assert forall|q: Seq<char>| q != k implies (has_name(new_s, q) <==> has_name(old_s, q))
                        && (has_name(new_s, q) ==> entries_map(new_s)[q] == entries_map(old_s)[q]) by {
                        if has_name(new_s, q) {
                            let i = choose|i: int| 0 <= i < new_s.len() && (#[trigger] new_s[i]).0@ == q;
                            let j = if i >= p { i + 1 } else { i };
                            assert(old_s[j] == new_s[i]);
                            lemma_entries_map_at(new_s, i);
                            lemma_entries_map_at(old_s, j);
                        }
                        if has_name(old_s, q) {
                            let j = choose|j: int| 0 <= j < old_s.len() && (#[trigger] old_s[j]).0@ == q;
                            let i = if j > p { j - 1 } else { j };
                            assert(new_s[i] == old_s[j]);
                        }
                    }
                    assert(!has_name(new_s, k)) by {
                        if has_name(new_s, k) {
                            let i = choose|i: int| 0 <= i < new_s.len() && (#[trigger] new_s[i]).0@ == k;
                            if i >= p {
                                assert(key_less(old_s[p as int].0@, old_s[i + 1].0@));
                            } else {
                                assert(key_less(old_s[i].0@, old_s[p as int].0@));
                            }
                        }
                    }
                    assert(entries_map(new_s) =~= entries_map(old_s).remove(k));
                }
                true
            },
        }
    }

    /// Checks that `alias_name` is a usable alias name: not empty, and
    /// only ASCII letters, digits, `_` and `-`.
    pub fn validate_alias_name(alias_name: &str) -> (r: Result<(), AliasNameError>)
        ensures
            alias_name@.len() == 0 ==> r == Err::<(), AliasNameError>(AliasNameError::Empty),
            alias_name@.len() > 0 && valid_name_chars(alias_name@) ==> r is Ok,
            alias_name@.len() > 0 && !valid_name_chars(alias_name@) ==> r == Err::<(), AliasNameError>(
                AliasNameError::InvalidCharacters,
            ),
    {
        let c = chars_of(alias_name);
        if c.len() == 0 {
            return Err(AliasNameError::Empty);
        }
        let mut i: usize = 0;
        while i < c.len()
            invariant
                c@ == alias_name@,
                i <= c.len(),
                forall|k: int| 0 <= k < i ==> is_name_char(#[trigger] c@[k]),
            decreases c.len() - i,
        {
            if !is_name_char_exec(c[i]) {
                return Err(AliasNameError::InvalidCharacters);
            }
            i += 1;
        }
        Ok(())
    }
}

} // verus!
