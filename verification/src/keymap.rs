//! The key-mapping table: physical key identifier (case-insensitive) to
//! display label and ordinal slot, built from a list of configuration
//! entries of the form `KEY` or `KEY:LABEL`.

use vstd::prelude::*;
use vstd::string::*;

use crate::text::{colon_count, first_colon, lemma_first_colon_bounds, lower, scan_colons};

verus! {

/// Abstract content of one configured binding.
#[verifier::ext_equal]
pub ghost struct KeyView {
    /// The physical key identifier, as written in the configuration.
    pub id: Seq<char>,
    /// The label sent to subscribers.
    pub label: Seq<char>,
    /// Zero-based position of the entry in the configuration list.
    pub ordinal: int,
}

/// One configured binding.
#[derive(Debug)]
pub struct MonitoredKey {
    /// Canonical identifier of the physical key; matched case-insensitively.
    pub physical_id: String,
    /// Label sent to subscribers; defaults to the identifier as written.
    pub display_label: String,
    /// Position in the original configuration list.
    pub ordinal: usize,
}

impl View for MonitoredKey {
    type V = KeyView;

    open spec fn view(&self) -> KeyView {
        KeyView { id: self.physical_id@, label: self.display_label@, ordinal: self.ordinal as int }
    }
}

/// A malformed configuration entry: the separator was used incorrectly
/// (more than one `:`, or an empty key or alias around it).
#[derive(Clone, Copy, Debug, PartialEq, Eq, Structural)]
pub struct ConfigError {
    /// Index of the offending entry in the configuration list.
    pub index: usize,
}

/// Whether a configuration entry uses the alias separator correctly:
/// either no `:` at all, or exactly one with a non-empty key before it
/// and a non-empty alias after it.
pub open spec fn wf_entry(s: Seq<char>) -> bool {
    ||| colon_count(s) == 0
    ||| (colon_count(s) == 1 && first_colon(s) != 0 && first_colon(s) != s.len() - 1)
}

/// The physical key identifier of a well-formed entry.
pub open spec fn entry_id(s: Seq<char>) -> Seq<char> {
    if colon_count(s) == 0 {
        s
    } else {
        s.subrange(0, first_colon(s))
    }
}

/// The display label of a well-formed entry.
pub open spec fn entry_label(s: Seq<char>) -> Seq<char> {
    if colon_count(s) == 0 {
        s
    } else {
        s.subrange(first_colon(s) + 1, s.len() as int)
    }
}

/// Insertion of a binding into the table: if a binding with the same
/// identifier (after case normalization) is present, the new binding
/// replaces it in place; otherwise it is appended.
pub open spec fn spec_upsert(m: Seq<KeyView>, k: KeyView) -> Seq<KeyView>
    decreases m.len(),
{
    if m.len() == 0 {
        seq![k]
    } else if lower(m[0].id) == lower(k.id) {
        seq![k] + m.skip(1)
    } else {
        seq![m[0]] + spec_upsert(m.skip(1), k)
    }
}

/// The table that a configuration list builds: entries processed in
/// order, each consuming its ordinal slot, a later entry for the same
/// (normalized) key replacing an earlier one; the first malformed entry
/// aborts the build with its index.
pub open spec fn spec_build(entries: Seq<Seq<char>>) -> Result<Seq<KeyView>, int>
    decreases entries.len(),
{
    if entries.len() == 0 {
        Ok(Seq::empty())
    } else {
        match spec_build(entries.drop_last()) {
            Err(i) => Err(i),
            Ok(m) => if wf_entry(entries.last()) {
                Ok(
                    spec_upsert(
                        m,
                        KeyView {
                            id: entry_id(entries.last()),
                            label: entry_label(entries.last()),
                            ordinal: entries.len() - 1,
                        },
                    ),
                )
            } else {
                Err(entries.len() - 1)
            },
        }
    }
}

/// Lookup by normalized identifier; `id` is expected to be already
/// lower-cased.
pub open spec fn spec_lookup(m: Seq<KeyView>, id: Seq<char>) -> Option<KeyView>
    decreases m.len(),
{
    if m.len() == 0 {
        None
    } else if lower(m[0].id) == id {
        Some(m[0])
    } else {
        spec_lookup(m.skip(1), id)
    }
}

/// Well-formedness of a table: identifiers are unique after case
/// normalization.
pub open spec fn wf_keys(m: Seq<KeyView>) -> bool {
    forall|i: int, j: int|
        0 <= i < j < m.len() ==> lower(#[trigger] m[i].id) != lower(#[trigger] m[j].id)
}

proof fn lemma_upsert_found(m: Seq<KeyView>, k: KeyView, i: int)
    requires
        0 <= i < m.len(),
        lower(m[i].id) == lower(k.id),
        forall|j: int| 0 <= j < i ==> lower(#[trigger] m[j].id) != lower(k.id),
    ensures
        spec_upsert(m, k) =~= m.update(i, k),
    decreases m.len(),
{
    if i == 0 {
        assert(spec_upsert(m, k) =~= m.update(0, k));
    } else {
        lemma_upsert_found(m.skip(1), k, i - 1);
        assert(spec_upsert(m, k) =~= seq![m[0]] + m.skip(1).update(i - 1, k));
        assert(seq![m[0]] + m.skip(1).update(i - 1, k) =~= m.update(i, k));
    }
}

proof fn lemma_upsert_none(m: Seq<KeyView>, k: KeyView)
    requires
        forall|j: int| 0 <= j < m.len() ==> lower(#[trigger] m[j].id) != lower(k.id),
    ensures
        spec_upsert(m, k) =~= m.push(k),
    decreases m.len(),
{
    if m.len() == 0 {
        assert(spec_upsert(m, k) =~= m.push(k));
    } else {
        lemma_upsert_none(m.skip(1), k);
        assert(spec_upsert(m, k) =~= seq![m[0]] + m.skip(1).push(k));
        assert(seq![m[0]] + m.skip(1).push(k) =~= m.push(k));
    }
}

/// The key-mapping table for one session.  Immutable once built; rebuilt
/// wholesale on configuration reload.
#[derive(Debug)]
pub struct KeyMap {
    keys: Vec<MonitoredKey>,
}

impl View for KeyMap {
    type V = Seq<KeyView>;

    closed spec fn view(&self) -> Seq<KeyView> {
        self.keys@.map_values(|k: MonitoredKey| k@)
    }
}

impl KeyMap {
    /// Identifiers are unique after case normalization.
    pub open spec fn wf(&self) -> bool {
        wf_keys(self@)
    }

    /// The empty table.
    pub fn new() -> (r: KeyMap)
        ensures
            r@ =~= Seq::<KeyView>::empty(),
            r.wf(),
    {
        KeyMap { keys: Vec::new() }
    }

    /// How many bindings the table holds.
    pub fn len(&self) -> (r: usize)
        ensures
            r == self@.len(),
    {
        self.keys.len()
    }

    fn upsert(&mut self, k: MonitoredKey)
        ensures
            final(self)@ =~= spec_upsert(old(self)@, k@),
            (exists|i: int|
                0 <= i < old(self)@.len() && lower(#[trigger] old(self)@[i].id) == lower(k@.id)
                    && final(self)@ =~= old(self)@.update(i, k@)) || ((forall|j: int|
                0 <= j < old(self)@.len() ==> lower(#[trigger] old(self)@[j].id) != lower(k@.id))
                && final(self)@ =~= old(self)@.push(k@)),
    {
        let mut i: usize = 0;
        while i < self.keys.len()
            invariant
                self@ == old(self)@,
                self.keys@.len() == old(self)@.len(),
                i <= old(self)@.len(),
                forall|j: int| 0 <= j < i ==> lower(#[trigger] old(self)@[j].id) != lower(k@.id),
            decreases self.keys.len() - i,
        {
            if crate::text::eq_lower(self.keys[i].physical_id.as_str(), k.physical_id.as_str()) {
                proof {
                    lemma_upsert_found(old(self)@, k@, i as int);
                }
                self.keys[i] = k;
                proof {
                    assert(self@ =~= old(self)@.update(i as int, k@));
                    assert((i as int) < old(self)@.len() && lower(old(self)@[i as int].id)
                        == lower(k@.id) && self@ =~= old(self)@.update(i as int, k@));
                }
                return ;
            }
            i += 1;
        }
        proof {
            lemma_upsert_none(old(self)@, k@);
        }
        self.keys.push(k);
        proof {
            assert(self@ =~= old(self)@.push(k@));
        }
    }

    /// Looks a (raw, possibly mixed-case) physical key identifier up and
    /// returns the binding's display label and ordinal slot.
    pub fn lookup(&self, id: &str) -> (r: Option<(String, usize)>)
        ensures
            match spec_lookup(self@, lower(id@)) {
                None => r is None,
                Some(kv) => r matches Some(p) && p.0@ == kv.label && p.1 as int == kv.ordinal,
            },
    {
        let ghost target = lower(id@);
        let mut i: usize = 0;
        proof {
            assert(self@.skip(0int) =~= self@);
        }
        while i < self.keys.len()
            invariant
                i <= self@.len(),
                self.keys@.len() == self@.len(),
                spec_lookup(self@, target) == spec_lookup(self@.skip(i as int), target),
                target == lower(id@),
            decreases self.keys.len() - i,
        {
            let ghost rest = self@.skip(i as int);
            proof {
                assert(rest[0] == self@[i as int]);
                assert(rest.skip(1) =~= self@.skip(i as int + 1));
            }
            if crate::text::eq_lower(self.keys[i].physical_id.as_str(), id) {
                return Some((self.keys[i].display_label.clone(), self.keys[i].ordinal));
            }
            i += 1;
        }
        proof {
            assert(self@.skip(i as int) =~= Seq::<KeyView>::empty());
        }
        None
    }
}

/// Parses one configuration entry into a binding carrying the given
/// ordinal slot, or reports the entry as malformed.
fn parse_entry(entry: &String, i: usize) -> (r: Result<MonitoredKey, ConfigError>)
    ensures
        match r {
            Ok(k) => wf_entry(entry@) && k@ == (KeyView {
                id: entry_id(entry@),
                label: entry_label(entry@),
                ordinal: i as int,
            }),
            Err(e) => !wf_entry(entry@) && e.index == i,
        },
{
    let len = entry.as_str().unicode_len();
    let (cc, fc) = scan_colons(entry.as_str());
    proof {
        lemma_first_colon_bounds(entry@);
    }
    if cc == 0 {
        Ok(MonitoredKey { physical_id: entry.clone(), display_label: entry.clone(), ordinal: i })
    } else if cc == 1 && fc != 0 && fc != len - 1 {
        let id = entry.as_str().substring_char(0, fc).to_owned();
        let label = entry.as_str().substring_char(fc + 1, len).to_owned();
        Ok(MonitoredKey { physical_id: id, display_label: label, ordinal: i })
    } else {
        Err(ConfigError { index: i })
    }
}

/// Builds the key-mapping table from the ordered configuration entries.
/// Each entry is either a bare key name (`"Z"`) or an aliased pair
/// (`"Z:Fire"`); ordinals are assigned by position before any
/// de-duplication, so a replaced entry still consumed its slot.
pub fn build_keymap(keys: Vec<String>) -> (r: Result<KeyMap, ConfigError>)
    ensures
        match r {
            Ok(m) => spec_build(keys.deep_view()) == Ok::<_, int>(m@) && m.wf(),
            Err(e) => spec_build(keys.deep_view()) == Err::<Seq<KeyView>, _>(e.index as int)
                && e.index < keys@.len(),
        },
{
    let ghost dv = keys.deep_view();
    let mut map = KeyMap::new();
    let mut i: usize = 0;
    proof {
        assert(dv.take(0int) =~= Seq::<Seq<char>>::empty());
        assert(dv.len() == keys@.len());
    }
    while i < keys.len()
        invariant
            i <= keys@.len(),
            dv == keys.deep_view(),
            dv.len() == keys@.len(),
            spec_build(dv.take(i as int)) == Ok::<_, int>(map@),
            map.wf(),
        decreases keys.len() - i,
    {
        let ghost pre = dv.take(i as int);
        let ghost post = dv.take(i as int + 1);
        proof {
            assert(post.drop_last() =~= pre);
            assert(post.last() == dv[i as int]);
            assert(dv[i as int] == keys@[i as int]@);
        }
        let ghost old_map = map@;
        match parse_entry(&keys[i], i) {
            Err(e) => {
                proof {
                    assert(!wf_entry(dv[i as int]));
                    assert(spec_build(post) == Err::<Seq<KeyView>, int>(i as int));
                    lemma_build_prefix_err(dv, i as int + 1);
                }
                return Err(e);
            },
            Ok(k) => {
                let ghost kv = k@;
                map.upsert(k);
                proof {
                    assert(map@ =~= spec_upsert(old_map, kv));
                    assert(spec_build(post) == Ok::<_, int>(map@));
                    assert(wf_keys(map@)) by {
                        if exists|x: int|
                            0 <= x < old_map.len() && lower(#[trigger] old_map[x].id) == lower(
                                kv.id,
                            ) && map@ =~= old_map.update(x, kv) {
                            let x = choose|x: int|
                                0 <= x < old_map.len() && lower(#[trigger] old_map[x].id) == lower(
                                    kv.id,
                                ) && map@ =~= old_map.update(x, kv);
                            assert forall|a: int, b: int|
                                0 <= a < b < map@.len() implies lower(#[trigger] map@[a].id)
                                != lower(#[trigger] map@[b].id) by {
                                assert(map@[a] == if a == x {
                                    kv
                                } else {
                                    old_map[a]
                                });
                                assert(map@[b] == if b == x {
                                    kv
                                } else {
                                    old_map[b]
                                });
                            }
                        } else {
                            assert(map@ =~= old_map.push(kv));
                        }
                    }
                }
            },
        }
        i += 1;
    }
    proof {
        assert(dv.take(dv.len() as int) =~= dv);
    }
    Ok(map)
}

/// Renders a binding back into its configuration entry: the bare key
/// name, or `key:alias` when an alias is set.
pub fn serialize_binding(key: &str, alias: Option<&str>) -> (r: String)
    ensures
        r@ == match alias {
            None => key@,
            Some(a) => key@ + ":"@ + a@,
        },
{
    match alias {
        None => key.to_owned(),
        Some(a) => {
            let mut s = key.to_owned();
            s.append(":");
            s.append(a);
            proof {
                assert(s@ =~= key@ + ":"@ + a@);
            }
            s
        },
    }
}

/// The configuration entry a binding renders to.
pub open spec fn spec_binding_entry(key: Seq<char>, alias: Option<Seq<char>>) -> Seq<char> {
    match alias {
        None => key,
        Some(a) => key + ":"@ + a,
    }
}

/// Renders a whole list of bindings back into configuration entries, in
/// order.
pub fn serialize_bindings(bindings: &Vec<(String, Option<String>)>) -> (r: Vec<String>)
    ensures
        r@.len() == bindings@.len(),
        forall|i: int|
            0 <= i < bindings@.len() ==> #[trigger] r@[i]@ == spec_binding_entry(
                bindings@[i].0@,
                match bindings@[i].1 {
                    None => None,
                    Some(a) => Some(a@),
                },
            ),
{
    let mut out: Vec<String> = Vec::new();
    let mut i: usize = 0;
    while i < bindings.len()
        invariant
            i <= bindings@.len(),
            out@.len() == i,
            forall|j: int|
                0 <= j < i ==> #[trigger] out@[j]@ == spec_binding_entry(
                    bindings@[j].0@,
                    match bindings@[j].1 {
                        None => None,
                        Some(a) => Some(a@),
                    },
                ),
        decreases bindings.len() - i,
    {
        let entry = match &bindings[i].1 {
            None => serialize_binding(bindings[i].0.as_str(), None),
            Some(a) => serialize_binding(bindings[i].0.as_str(), Some(a.as_str())),
        };
        out.push(entry);
        i += 1;
    }
    out
}

/// Separator counts add up over concatenation, and the first separator
/// of a concatenation whose left half has none lies in the right half.
pub proof fn lemma_colon_concat(a: Seq<char>, b: Seq<char>)
    ensures
        colon_count(a + b) == colon_count(a) + colon_count(b),
        colon_count(a) == 0 ==> first_colon(a + b) == a.len() + first_colon(b),
        colon_count(a) != 0 ==> first_colon(a + b) == first_colon(a),
    decreases b.len(),
{
    lemma_first_colon_bounds(a);
    lemma_first_colon_bounds(b);
    if b.len() == 0 {
        assert(a + b =~= a);
    } else {
        lemma_colon_concat(a, b.drop_last());
        lemma_first_colon_bounds(b.drop_last());
        assert((a + b).drop_last() =~= a + b.drop_last());
        assert((a + b).last() == b.last());
    }
}

/// A well-formed aliased entry `key:alias` parses back into exactly the
/// key and the alias it was built from.
pub proof fn lemma_binding_round_trip(key: Seq<char>, alias: Seq<char>)
    requires
        colon_count(key) == 0,
        colon_count(alias) == 0,
        key.len() > 0,
        alias.len() > 0,
    ensures
        wf_entry(key + ":"@ + alias),
        entry_id(key + ":"@ + alias) == key,
        entry_label(key + ":"@ + alias) == alias,
{
    let sep = ":"@;
    reveal_strlit(":");
    assert(sep =~= seq![':']);
    assert(sep.len() == 1 && sep.last() == ':');
    assert(sep.drop_last() =~= Seq::<char>::empty());
    assert(colon_count(Seq::<char>::empty()) == 0);
    assert(first_colon(Seq::<char>::empty()) == 0);
    assert(colon_count(sep) == 1);
    assert(first_colon(sep) == 0);
    let e = key + sep + alias;
    lemma_colon_concat(key, sep);
    lemma_colon_concat(key + sep, alias);
    lemma_first_colon_bounds(alias);
    assert(colon_count(e) == 1);
    assert(first_colon(key + sep) == key.len() + first_colon(sep));
    assert(first_colon(e) == key.len());
    assert(entry_id(e) =~= key);
    assert(entry_label(e) =~= alias);
}

/// A build that fails on a prefix fails on the whole list with the same
/// index.
pub proof fn lemma_build_prefix_err(entries: Seq<Seq<char>>, n: int)
    requires
        0 <= n <= entries.len(),
        spec_build(entries.take(n)) is Err,
    ensures
        spec_build(entries) == spec_build(entries.take(n)),
    decreases entries.len() - n,
{
    if n < entries.len() {
        assert(entries.take(n + 1).drop_last() =~= entries.take(n));
        lemma_build_prefix_err(entries, n + 1);
    } else {
        assert(entries.take(n) =~= entries);
    }
}

} // verus!
