//! The table of user-defined aliases: a name for an address and an album flag.

use vstd::prelude::*;
use crate::error::AppError;
use crate::text::{chars_of, push_str, push_string, str_eq, string_of};

verus! {

/// What an alias stands for.
pub struct AliasEntry {
    pub url: String,
    /// Whether the address is an album or playlist.
    pub album: bool,
}

/// An alias entry as contracts see it.
pub struct AliasModel {
    pub url: Seq<char>,
    pub album: bool,
}

impl View for AliasEntry {
    type V = AliasModel;

    open spec fn view(&self) -> AliasModel {
        AliasModel { url: self.url@, album: self.album }
    }
}

/// Aliases by name, each name at most once.
pub struct AliasTable {
    entries: Vec<(String, AliasEntry)>,
}

pub open spec fn named_at(s: Seq<(String, AliasEntry)>, i: int, name: Seq<char>) -> bool {
    0 <= i < s.len() && s[i].0@ == name
}

/// `a` comes before `b` in the order of `str`'s `Ord`: character by character by code
/// point, a proper prefix first.
pub open spec fn name_lt(a: Seq<char>, b: Seq<char>) -> bool
    decreases a.len(),
{
    if a.len() == 0 {
        b.len() > 0
    } else if b.len() == 0 {
        false
    } else if a[0] != b[0] {
        a[0] < b[0]
    } else {
        name_lt(a.drop_first(), b.drop_first())
    }
}

proof fn lemma_name_lt_irreflexive(a: Seq<char>)
    ensures
        !name_lt(a, a),
    decreases a.len(),
{
    if a.len() > 0 {
        lemma_name_lt_irreflexive(a.drop_first());
    }
}

proof fn lemma_name_lt_transitive(a: Seq<char>, b: Seq<char>, c: Seq<char>)
    requires
        name_lt(a, b),
        name_lt(b, c),
    ensures
        name_lt(a, c),
    decreases a.len(),
{
    if a.len() > 0 && a[0] == b[0] && b[0] == c[0] {
        lemma_name_lt_transitive(a.drop_first(), b.drop_first(), c.drop_first());
    }
}

proof fn lemma_name_lt_total(a: Seq<char>, b: Seq<char>)
    requires
        a != b,
    ensures
        name_lt(a, b) || name_lt(b, a),
    decreases a.len(),
{
    if a.len() > 0 && b.len() > 0 {
        if a[0] == b[0] {
            if a.drop_first() == b.drop_first() {
                assert(a =~= seq![a[0]] + a.drop_first());
                assert(b =~= seq![b[0]] + b.drop_first());
            }
            lemma_name_lt_total(a.drop_first(), b.drop_first());
        }
    } else if a.len() == 0 && b.len() == 0 {
        assert(a =~= b);
    }
}

/// Whether `a` comes before `b` in name order.
fn name_less(a: &Vec<char>, b: &Vec<char>) -> (r: bool)
    ensures
        r == name_lt(a@, b@),
{
    let mut i: usize = 0;
    assert(a@.subrange(0, a@.len() as int) =~= a@);
    assert(b@.subrange(0, b@.len() as int) =~= b@);
    while i < a.len() && i < b.len() && a[i] == b[i]
        invariant
            i <= a@.len(),
            i <= b@.len(),
            name_lt(a@, b@) == name_lt(
                a@.subrange(i as int, a@.len() as int),
                b@.subrange(i as int, b@.len() as int),
            ),
        decreases a@.len() - i,
    {
        let ghost x = a@.subrange(i as int, a@.len() as int);
        let ghost y = b@.subrange(i as int, b@.len() as int);
        assert(x.drop_first() =~= a@.subrange(i + 1, a@.len() as int));
        assert(y.drop_first() =~= b@.subrange(i + 1, b@.len() as int));
        i += 1;
    }
    let ghost x = a@.subrange(i as int, a@.len() as int);
    let ghost y = b@.subrange(i as int, b@.len() as int);
    if i == a.len() {
        i < b.len()
    } else if i == b.len() {
        false
    } else {
        assert(x[0] == a@[i as int] && y[0] == b@[i as int]);
        a[i] < b[i]
    }
}

/// Names in strictly increasing order.
pub open spec fn sorted_names(s: Seq<(String, AliasEntry)>) -> bool {
    forall|i: int, j: int| 0 <= i < j < s.len() ==> name_lt(#[trigger] s[i].0@, #[trigger] s[j].0@)
}

proof fn lemma_sorted_unique(s: Seq<(String, AliasEntry)>)
    requires
        sorted_names(s),
    ensures
        forall|i: int, j: int|
            0 <= i < s.len() && 0 <= j < s.len() && i != j ==> (#[trigger] s[i]).0@ != (
            #[trigger] s[j]).0@,
{
    assert forall|i: int, j: int|
        0 <= i < s.len() && 0 <= j < s.len() && i != j implies (#[trigger] s[i]).0@ != (
        #[trigger] s[j]).0@ by {
        if i < j {
            assert(name_lt(s[i].0@, s[j].0@));
            lemma_name_lt_irreflexive(s[i].0@);
        } else {
            assert(name_lt(s[j].0@, s[i].0@));
            lemma_name_lt_irreflexive(s[j].0@);
        }
    }
}

/// What `name` stands for in `s`.
pub open spec fn lookup_in(s: Seq<(String, AliasEntry)>, name: Seq<char>) -> Option<AliasModel> {
    if exists|i: int| named_at(s, i, name) {
        Some(s[choose|i: int| named_at(s, i, name)].1@)
    } else {
        None
    }
}

proof fn lemma_lookup_same(s: Seq<(String, AliasEntry)>, p: Seq<(String, AliasEntry)>, name: Seq<char>)
    requires
        (exists|i: int| named_at(s, i, name)) <==> (exists|i: int| named_at(p, i, name)),
        forall|a: int, b: int| named_at(s, a, name) && named_at(p, b, name) ==> s[a].1@ == p[b].1@,
    ensures
        lookup_in(s, name) == lookup_in(p, name),
{
    if exists|i: int| named_at(s, i, name) {
        let a = choose|i: int| named_at(s, i, name);
        let b = choose|i: int| named_at(p, i, name);
        assert(s[a].1@ == p[b].1@);
    }
}

impl AliasTable {
    pub closed spec fn entries_view(&self) -> Seq<(String, AliasEntry)> {
        self.entries@
    }

    /// No name stands twice, and the aliases stand in name order.
    pub open spec fn wf(&self) -> bool {
        &&& forall|i: int, j: int|
            0 <= i < self.entries_view().len() && 0 <= j < self.entries_view().len() && i != j
                ==> (#[trigger] self.entries_view()[i]).0@ != (#[trigger] self.entries_view()[j]).0@
        &&& sorted_names(self.entries_view())
    }

    /// What `name` stands for, if it is an alias.
    pub open spec fn lookup(&self, name: Seq<char>) -> Option<AliasModel> {
        lookup_in(self.entries_view(), name)
    }

    /// An empty table.
    pub fn new() -> (r: AliasTable)
        ensures
            r.wf(),
            forall|name: Seq<char>| r.lookup(name) is None,
    {
        AliasTable { entries: Vec::new() }
    }

    /// How many aliases there are.
    pub fn len(&self) -> (r: usize)
        ensures
            r == self.entries_view().len(),
    {
        self.entries.len()
    }

    /// The `i`-th alias and what it stands for.
    pub fn entry_at(&self, i: usize) -> (r: (&String, &AliasEntry))
        requires
            i < self.entries_view().len(),
        ensures
            *r.0 == self.entries_view()[i as int].0,
            *r.1 == self.entries_view()[i as int].1,
    {
        (&self.entries[i].0, &self.entries[i].1)
    }

    fn position(&self, name: &str) -> (r: Option<usize>)
        requires
            self.wf(),
        ensures
            match r {
                Some(i) => named_at(self.entries_view(), i as int, name@) && self.lookup(name@)
                    == Some(self.entries_view()[i as int].1@),
                None => self.lookup(name@) is None,
            },
    {
        let mut i: usize = 0;
        while i < self.entries.len()
            invariant
                self.wf(),
                i <= self.entries@.len(),
                forall|j: int| 0 <= j < i ==> !named_at(self.entries@, j, name@),
            decreases self.entries@.len() - i,
        {
            if str_eq(self.entries[i].0.as_str(), name) {
                proof {
                    assert(named_at(self.entries_view(), i as int, name@));
                    let k = choose|k: int| named_at(self.entries_view(), k, name@);
                    if k != i {
                        assert(self.entries_view()[k].0@ != self.entries_view()[i as int].0@);
                    }
                }
                return Some(i);
            }
            i += 1;
        }
        None
    }

    /// What `name` stands for, if it is an alias.
    pub fn get(&self, name: &str) -> (r: Option<&AliasEntry>)
        requires
            self.wf(),
        ensures
            match r {
                Some(e) => self.lookup(name@) == Some(e@),
                None => self.lookup(name@) is None,
            },
    {
        match self.position(name) {
            Some(i) => Some(&self.entries[i].1),
            None => None,
        }
    }

    /// Makes `name` stand for `entry`, replacing what it stood for; says whether it was
    /// already an alias.
    pub fn insert(&mut self, name: String, entry: AliasEntry) -> (r: bool)
        requires
            old(self).wf(),
        ensures
            final(self).wf(),
            r == old(self).lookup(name@) is Some,
            final(self).lookup(name@) == Some(entry@),
            forall|other: Seq<char>| other != name@ ==> final(self).lookup(other) == old(self).lookup(other),
    {
        let ghost name_v = name@;
        let ghost prev = self.entries@;
        let ghost absent = !exists|k: int| named_at(prev, k, name_v);
        match self.position(name.as_str()) {
            Some(i) => {
                self.entries.set(i, (name, entry));
                proof {
                    let s = self.entries@;
                    assert forall|a: int, b: int|
                        0 <= a < s.len() && 0 <= b < s.len() && a != b implies (#[trigger] s[a]).0@
                        != (#[trigger] s[b]).0@ by {
                        assert(prev[a].0@ != prev[b].0@);
                    }
                    assert(sorted_names(s)) by {
                        assert forall|a: int, b: int| 0 <= a < b < s.len() implies name_lt(
                            #[trigger] s[a].0@,
                            #[trigger] s[b].0@,
                        ) by {
                            assert(s[a].0@ == prev[a].0@ && s[b].0@ == prev[b].0@);
                        }
                    }
                    assert(named_at(s, i as int, name_v));
                    let k = choose|k: int| named_at(s, k, name_v);
                    assert(s[k].0@ == s[i as int].0@);
                    assert forall|other: Seq<char>| other != name_v implies #[trigger] self.lookup(
                        other,
                    ) == old(self).lookup(other) by {
                        assert forall|k: int| named_at(s, k, other) <==> named_at(prev, k, other) by {
                            if 0 <= k < s.len() && k != i {
                                assert(s[k] == prev[k]);
                            }
                        }
                        assert forall|a: int, b: int|
                            named_at(s, a, other) && named_at(prev, b, other) implies s[a].1@
                            == prev[b].1@ by {
                            assert(named_at(prev, a, other));
                            assert(s[a] == prev[a]);
                        }
                        lemma_lookup_same(s, prev, other);
                    }
                }
                true
            },
            None => {
                assert(absent);
                let key = chars_of(name.as_str());
                let mut p: usize = 0;
                while p < self.entries.len() && !name_less(
                    &key,
                    &chars_of(self.entries[p].0.as_str()),
                )
                    invariant
                        self.entries@ == prev,
                        key@ == name_v,
                        p <= prev.len(),
                        forall|k: int| 0 <= k < p ==> !name_lt(name_v, #[trigger] prev[k].0@),
                    decreases prev.len() - p,
                {
                    p += 1;
                }
                proof {
                    assert forall|k: int| 0 <= k < p implies name_lt(#[trigger] prev[k].0@, name_v) by {
                        assert(!named_at(prev, k, name_v));
                        lemma_name_lt_total(prev[k].0@, name_v);
                    }
                    assert forall|k: int| p <= k < prev.len() implies name_lt(name_v, #[trigger] prev[k].0@) by {
                        if k > p {
                            assert(name_lt(prev[p as int].0@, prev[k].0@));
                            lemma_name_lt_transitive(name_v, prev[p as int].0@, prev[k].0@);
                        }
                    }
                }
                self.entries.insert(p, (name, entry));
                proof {
                    let s = self.entries@;
                    assert(s == prev.insert(p as int, s[p as int]));
                    assert forall|x: int, y: int| 0 <= x < y < s.len() implies name_lt(
                        #[trigger] s[x].0@,
                        #[trigger] s[y].0@,
                    ) by {
                        if y < p {
                            assert(s[x] == prev[x] && s[y] == prev[y]);
                        } else if y == p {
                            assert(s[x] == prev[x]);
                        } else if x == p {
                            assert(s[y] == prev[y - 1]);
                        } else if x < p {
                            assert(s[x] == prev[x] && s[y] == prev[y - 1]);
                        } else {
                            assert(s[x] == prev[x - 1] && s[y] == prev[y - 1]);
                        }
                    }
                    lemma_sorted_unique(s);
                    assert(named_at(s, p as int, name_v));
                    let k = choose|k: int| named_at(s, k, name_v);
                    assert(s[k].0@ == s[p as int].0@);
                    assert forall|other: Seq<char>| other != name_v implies #[trigger] self.lookup(
                        other,
                    ) == old(self).lookup(other) by {
                        assert forall|k: int| named_at(s, k, other) implies named_at(
                            prev,
                            if k < p { k } else { k - 1 },
                            other,
                        ) by {
                            if k < p {
                                assert(s[k] == prev[k]);
                            } else {
                                assert(s[k] == prev[k - 1]);
                            }
                        }
                        assert forall|k: int| named_at(prev, k, other) implies named_at(
                            s,
                            if k < p { k } else { k + 1 },
                            other,
                        ) by {
                            if k < p {
                                assert(s[k] == prev[k]);
                            } else {
                                assert(s[k + 1] == prev[k]);
                            }
                        }
                        assert forall|x: int, y: int|
                            named_at(s, x, other) && named_at(prev, y, other) implies s[x].1@
                            == prev[y].1@ by {
                            let ox = if x < p { x } else { x - 1 };
                            assert(named_at(prev, ox, other));
                            assert(s[x] == prev[ox]);
                        }
                        lemma_lookup_same(s, prev, other);
                    }
                }
                false
            },
        }
    }

    /// Removes `name`, handing back what it stood for.
    pub fn remove(&mut self, name: &str) -> (r: Option<AliasEntry>)
        requires
            old(self).wf(),
        ensures
            final(self).wf(),
            match r {
                Some(e) => old(self).lookup(name@) == Some(e@),
                None => old(self).lookup(name@) is None,
            },
            final(self).lookup(name@) is None,
            forall|other: Seq<char>| other != name@ ==> final(self).lookup(other) == old(self).lookup(other),
            r is None ==> final(self).entries_view() == old(self).entries_view(),
    {
        match self.position(name) {
            Some(i) => {
                let ghost prev = self.entries@;
                let (_, e) = self.entries.remove(i);
                proof {
                    let s = self.entries@;
                    assert forall|a: int, b: int|
                        0 <= a < s.len() && 0 <= b < s.len() && a != b implies (#[trigger] s[a]).0@ != (#[trigger] s[b]).0@ by {
                        let pa = if a < i { a } else { a + 1 };
                        let pb = if b < i { b } else { b + 1 };
                        assert(s[a] == prev[pa] && s[b] == prev[pb]);
                    }
                    assert forall|x: int, y: int| 0 <= x < y < s.len() implies name_lt(
                        #[trigger] s[x].0@,
                        #[trigger] s[y].0@,
                    ) by {
                        let px = if x < i { x } else { x + 1 };
                        let py = if y < i { y } else { y + 1 };
                        assert(s[x] == prev[px] && s[y] == prev[py]);
                    }
                    assert forall|k: int| !named_at(s, k, name@) by {
                        if 0 <= k < s.len() {
                            let pk = if k < i { k } else { k + 1 };
                            assert(s[k] == prev[pk]);
                        }
                    }
                    assert forall|other: Seq<char>| other != name@ implies #[trigger] self.lookup(other) == old(self).lookup(other) by {
                        if exists|k: int| named_at(prev, k, other) {
                            let k0 = choose|k: int| named_at(prev, k, other);
                            let k1 = if k0 < i { k0 } else { k0 - 1 };
                            assert(s[k1] == prev[k0]);
                            assert(named_at(s, k1, other));
                        }
                        if exists|k: int| named_at(s, k, other) {
                            let kc = choose|k: int| named_at(s, k, other);
                            let pc = if kc < i { kc } else { kc + 1 };
                            assert(s[kc] == prev[pc]);
                            assert(named_at(prev, pc, other));
                        }
                        assert forall|a: int, b: int|
                            named_at(s, a, other) && named_at(prev, b, other) implies s[a].1@
                            == prev[b].1@ by {
                            let pa = if a < i { a } else { a + 1 };
                            assert(s[a] == prev[pa]);
                            assert(named_at(prev, pa, other));
                        }
                        lemma_lookup_same(s, prev, other);
                    }
                }
                Some(e)
            },
            None => None,
        }
    }
}

/// A change to, or a look at, the alias table.
pub enum AliasCommand {
    /// Create or update an alias.
    Add { name: String, url: String, album: bool },
    /// Remove an alias.
    Remove { name: String },
    /// List the aliases.
    List,
}

/// What an alias command did: whether the table changed, and the lines to show.
pub struct AliasOutcome {
    pub changed: bool,
    pub lines: Vec<String>,
}

pub open spec fn quoted_name(prefix: Seq<char>, name: Seq<char>) -> Seq<char> {
    prefix + "'"@ + name + "'"@
}

/// The listing line of one alias.
pub open spec fn alias_line(name: Seq<char>, e: AliasModel) -> Seq<char> {
    name + " -> "@ + e.url + if e.album {
        " (album)"@
    } else {
        Seq::<char>::empty()
    }
}

pub open spec fn lines_view(v: Seq<String>) -> Seq<Seq<char>> {
    v.map_values(|s: String| s@)
}

fn single_line(prefix: &str, name: &String) -> (r: Vec<String>)
    ensures
        lines_view(r@) == seq![quoted_name(prefix@, name@)],
{
    let mut v = chars_of(prefix);
    push_str(&mut v, "'");
    push_string(&mut v, name);
    push_str(&mut v, "'");
    let mut lines: Vec<String> = Vec::new();
    lines.push(string_of(&v));
    assert(lines_view(lines@) =~= seq![quoted_name(prefix@, name@)]);
    lines
}

/// Applies an alias command to the table.
///
/// Adding creates or replaces the alias; removing a name that is no alias is an error and
/// leaves the table as it was; listing changes nothing.
pub fn handle_alias(command: AliasCommand, table: &mut AliasTable) -> (r: Result<AliasOutcome, AppError>)
    requires
        old(table).wf(),
    ensures
        final(table).wf(),
        match command {
            AliasCommand::Add { name, url, album } => {
                &&& r is Ok
                &&& r->Ok_0.changed
                &&& final(table).lookup(name@) == Some(AliasModel { url: url@, album })
                &&& forall|other: Seq<char>| other != name@ ==> final(table).lookup(other) == old(table).lookup(other)
                &&& lines_view(r->Ok_0.lines@) == seq![
                    quoted_name(
                        if old(table).lookup(name@) is Some {
                            "updated alias "@
                        } else {
                            "created alias "@
                        },
                        name@,
                    ),
                ]
            },
            AliasCommand::Remove { name } => match old(table).lookup(name@) {
                Some(_) => {
                    &&& r is Ok
                    &&& r->Ok_0.changed
                    &&& final(table).lookup(name@) is None
                    &&& forall|other: Seq<char>| other != name@ ==> final(table).lookup(other) == old(table).lookup(other)
                    &&& lines_view(r->Ok_0.lines@) == seq![quoted_name("removed alias "@, name@)]
                },
                None => {
                    &&& r is Err
                    &&& r->Err_0 is Message
                    &&& r->Err_0->Message_0@ == quoted_name("alias "@, name@) + " not found"@
                    &&& final(table).entries_view() == old(table).entries_view()
                },
            },
            AliasCommand::List => {
                &&& r is Ok
                &&& !r->Ok_0.changed
                &&& final(table).entries_view() == old(table).entries_view()
                &&& if old(table).entries_view().len() == 0 {
                    lines_view(r->Ok_0.lines@) == seq!["no aliases defined yet"@]
                } else {
                    lines_view(r->Ok_0.lines@) == old(table).entries_view().map_values(
                        |p: (String, AliasEntry)| alias_line(p.0@, p.1@),
                    )
                }
            },
        },
{
    match command {
        AliasCommand::Add { name, url, album } => {
            let entry = AliasEntry { url, album };
            let key = name.clone();
            let existed = table.insert(key, entry);
            let lines = if existed {
                single_line("updated alias ", &name)
            } else {
                single_line("created alias ", &name)
            };
            Ok(AliasOutcome { changed: true, lines })
        },
        AliasCommand::Remove { name } => {
            match table.remove(name.as_str()) {
                Some(_) => Ok(AliasOutcome { changed: true, lines: single_line("removed alias ", &name) }),
                None => {
                    let mut v = chars_of("alias '");
                    push_string(&mut v, &name);
                    push_str(&mut v, "' not found");
                    proof {
                        reveal_strlit("alias '");
                        reveal_strlit("alias ");
                        reveal_strlit("'");
                        reveal_strlit("' not found");
                        reveal_strlit(" not found");
                        assert(v@ =~= quoted_name("alias "@, name@) + " not found"@);
                    }
                    Err(AppError::Message(string_of(&v)))
                },
            }
        },
        AliasCommand::List => {
            let mut lines: Vec<String> = Vec::new();
            let n = table.len();
            if n == 0 {
                lines.push(String::from_str("no aliases defined yet"));
                assert(lines_view(lines@) =~= seq!["no aliases defined yet"@]);
                return Ok(AliasOutcome { changed: false, lines });
            }
            let ghost es = table.entries_view();
            let mut i: usize = 0;
            while i < n
                invariant
                    n == es.len(),
                    es == table.entries_view(),
                    i <= n,
                    lines_view(lines@) == es.subrange(0, i as int).map_values(
                        |p: (String, AliasEntry)| alias_line(p.0@, p.1@),
                    ),
                decreases n - i,
            {
                let (name, entry) = table.entry_at(i);
                let mut v: Vec<char> = Vec::new();
                push_string(&mut v, name);
                push_str(&mut v, " -> ");
                push_string(&mut v, &entry.url);
                if entry.album {
                    push_str(&mut v, " (album)");
                }
                let ghost prev = lines@;
                lines.push(string_of(&v));
                proof {
                    assert(v@ =~= alias_line(es[i as int].0@, es[i as int].1@));
                    assert(lines_view(lines@) =~= lines_view(prev).push(v@));
                    assert(es.subrange(0, i + 1).map_values(|p: (String, AliasEntry)| alias_line(p.0@, p.1@))
                        =~= es.subrange(0, i as int).map_values(|p: (String, AliasEntry)| alias_line(p.0@, p.1@)).push(v@));
                }
                i += 1;
            }
            assert(es.subrange(0, n as int) =~= es);
            Ok(AliasOutcome { changed: false, lines })
        },
    }
}

} // verus!
