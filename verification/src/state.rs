//! What the launcher remembers of each installed port: tag, installation
//! date, favourite executable, automatic updates, play time and last play.
//! Timestamps are handed in by the caller.

use crate::json::{bool_of, get_model, lemma_member_first, lemma_members_of, member, members_of, text_field, u64_of, JsonModel, JsonNumber, JsonValue};
use crate::numbers::{decimal, decimal_text, lemma_decimal_reads_back, parsed_u64};
use crate::text::string_of;
use crate::models::opt_text;
use crate::text::same_text;
use vstd::prelude::*;

verus! {

/// What is remembered of an installed port.
#[derive(Debug)]
pub struct InstalledInfo {
    pub installed_tag: Option<String>,
    /// When the port was installed (also the reference date of update checks).
    pub installed_at: String,
    /// The executable chosen by the user, relative to the game's folder.
    pub favorite_exe: Option<String>,
    /// Automatic updates are on for this port.
    pub update: bool,
    pub playtime_seconds: u64,
    pub last_played_at: String,
}

/// The model of an `InstalledInfo`.
pub struct InfoModel {
    pub tag: Option<Seq<char>>,
    pub installed_at: Seq<char>,
    pub favorite: Option<Seq<char>>,
    pub update: bool,
    pub playtime: nat,
    pub last_played: Seq<char>,
}

impl InstalledInfo {
    pub open spec fn model(self) -> InfoModel {
        InfoModel {
            tag: opt_text(self.installed_tag),
            installed_at: self.installed_at@,
            favorite: opt_text(self.favorite_exe),
            update: self.update,
            playtime: self.playtime_seconds as nat,
            last_played: self.last_played_at@,
        }
    }

    /// A copy of this record.
    pub fn duplicate(&self) -> (r: InstalledInfo)
        ensures
            r.model() == self.model(),
    {
        InstalledInfo {
            installed_tag: match &self.installed_tag {
                Some(t) => Some(t.clone()),
                None => None,
            },
            installed_at: self.installed_at.clone(),
            favorite_exe: match &self.favorite_exe {
                Some(f) => Some(f.clone()),
                None => None,
            },
            update: self.update,
            playtime_seconds: self.playtime_seconds,
            last_played_at: self.last_played_at.clone(),
        }
    }
}

/// A new record: nothing known, automatic updates on.
pub open spec fn default_info() -> InfoModel {
    InfoModel {
        tag: None,
        installed_at: Seq::empty(),
        favorite: None,
        update: true,
        playtime: 0,
        last_played: Seq::empty(),
    }
}

impl Default for InstalledInfo {
    fn default() -> (r: InstalledInfo)
        ensures
            r.model() == default_info(),
    {
        InstalledInfo {
            installed_tag: None,
            installed_at: String::new(),
            favorite_exe: None,
            update: true,
            playtime_seconds: 0,
            last_played_at: String::new(),
        }
    }
}

/// The record of a port that has none yet, created at `now`.
pub open spec fn created(now: Seq<char>) -> InfoModel {
    InfoModel { installed_at: now, ..default_info() }
}

/// The record to change: the existing one, or a new one created at `now`.
pub open spec fn entry_or_new(info: Option<InfoModel>, now: Seq<char>) -> InfoModel {
    match info {
        Some(i) => i,
        None => created(now),
    }
}

/// The record after an installation at `now` with `tag`: the rest (favourite,
/// automatic updates, play time, last play) is kept.
pub open spec fn after_install(info: Option<InfoModel>, tag: Option<Seq<char>>, now: Seq<char>) -> InfoModel {
    InfoModel { tag: tag, installed_at: now, ..entry_or_new(info, now) }
}

/// The record after a game started at `now`.
pub open spec fn after_play(info: Option<InfoModel>, now: Seq<char>) -> InfoModel {
    InfoModel { last_played: now, ..entry_or_new(info, now) }
}

/// The record after `seconds` more of play.
pub open spec fn after_playtime(i: InfoModel, seconds: nat) -> InfoModel {
    InfoModel { playtime: i.playtime + seconds, ..i }
}

/// The record with automatic updates set to `value`.
pub open spec fn after_update_choice(info: Option<InfoModel>, value: bool, now: Seq<char>) -> InfoModel {
    InfoModel { update: value, ..entry_or_new(info, now) }
}

/// The record with the favourite executable set to `exe`.
pub open spec fn after_favorite(info: Option<InfoModel>, exe: Option<Seq<char>>, now: Seq<char>) -> InfoModel {
    InfoModel { favorite: exe, ..entry_or_new(info, now) }
}

/// A text field, empty when absent or not a string.
pub open spec fn text_or_empty(v: JsonModel, key: Seq<char>) -> Seq<char> {
    match text_field(v, key) {
        Some(t) => t,
        None => Seq::empty(),
    }
}

/// The record read from a saved entry: missing or mistyped fields take their
/// defaults (automatic updates on, no play time).
pub open spec fn info_from_model(v: JsonModel) -> InfoModel {
    InfoModel {
        tag: text_field(v, "installed_tag"@),
        installed_at: text_or_empty(v, "installed_at"@),
        favorite: text_field(v, "favorite_exe"@),
        update: match get_model(v, "update"@) {
            Some(x) => match bool_of(x) {
                Some(b) => b,
                None => true,
            },
            None => true,
        },
        playtime: match get_model(v, "playtime_seconds"@) {
            Some(x) => match u64_of(x) {
                Some(n) => n,
                None => 0,
            },
            None => 0,
        },
        last_played: text_or_empty(v, "last_played_at"@),
    }
}

/// An optional text as JSON: a string, or null.
pub open spec fn text_or_null(t: Option<Seq<char>>) -> JsonModel {
    match t {
        Some(s) => JsonModel::Text(s),
        None => JsonModel::Null,
    }
}

/// The saved form of a record.
pub open spec fn info_json(i: InfoModel) -> JsonModel {
    JsonModel::Object(
        seq![
            ("installed_tag"@, text_or_null(i.tag)),
            ("installed_at"@, JsonModel::Text(i.installed_at)),
            ("favorite_exe"@, text_or_null(i.favorite)),
            ("update"@, JsonModel::Bool(i.update)),
            ("playtime_seconds"@, JsonModel::Number(decimal(i.playtime))),
            ("last_played_at"@, JsonModel::Text(i.last_played)),
        ],
    )
}

/// A saved record reads back as the record that was saved.
pub proof fn lemma_info_round_trip(i: InfoModel)
    requires
        i.playtime <= u64::MAX,
    ensures
        info_from_model(info_json(i)) == i,
{
    reveal_strlit("installed_tag");
    reveal_strlit("installed_at");
    reveal_strlit("favorite_exe");
    reveal_strlit("update");
    reveal_strlit("playtime_seconds");
    reveal_strlit("last_played_at");
    let m = seq![
        ("installed_tag"@, text_or_null(i.tag)),
        ("installed_at"@, JsonModel::Text(i.installed_at)),
        ("favorite_exe"@, text_or_null(i.favorite)),
        ("update"@, JsonModel::Bool(i.update)),
        ("playtime_seconds"@, JsonModel::Number(decimal(i.playtime))),
        ("last_played_at"@, JsonModel::Text(i.last_played)),
    ];
    assert("installed_tag"@ != "installed_at"@) by {
        assert("installed_tag"@.len() != "installed_at"@.len());
    }
    assert("favorite_exe"@ != "installed_at"@) by {
        assert("favorite_exe"@[0] != "installed_at"@[0]);
    }
    assert("favorite_exe"@ != "installed_tag"@) by {
        assert("favorite_exe"@[0] != "installed_tag"@[0]);
    }
    assert("update"@ != "installed_tag"@ && "update"@ != "installed_at"@ && "update"@ != "favorite_exe"@) by {
        assert("update"@[0] != "installed_tag"@[0]);
        assert("update"@[0] != "favorite_exe"@[0]);
    }
    assert("playtime_seconds"@ != "installed_tag"@ && "playtime_seconds"@ != "installed_at"@ && "playtime_seconds"@
        != "favorite_exe"@ && "playtime_seconds"@ != "update"@) by {
        assert("playtime_seconds"@[0] != "installed_tag"@[0]);
        assert("playtime_seconds"@[0] != "favorite_exe"@[0]);
        assert("playtime_seconds"@[0] != "update"@[0]);
    }
    assert("last_played_at"@ != "installed_tag"@ && "last_played_at"@ != "installed_at"@ && "last_played_at"@
        != "favorite_exe"@ && "last_played_at"@ != "update"@ && "last_played_at"@ != "playtime_seconds"@) by {
        assert("last_played_at"@[0] != "installed_tag"@[0]);
        assert("last_played_at"@[0] != "favorite_exe"@[0]);
        assert("last_played_at"@[0] != "update"@[0]);
        assert("last_played_at"@[0] != "playtime_seconds"@[0]);
    }
    lemma_member_first(m, "installed_tag"@, 0);
    lemma_member_first(m, "installed_at"@, 1);
    lemma_member_first(m, "favorite_exe"@, 2);
    lemma_member_first(m, "update"@, 3);
    lemma_member_first(m, "playtime_seconds"@, 4);
    lemma_member_first(m, "last_played_at"@, 5);
    lemma_decimal_reads_back(i.playtime);
    assert(decimal(i.playtime)[0] != '+');
    assert(crate::numbers::unsigned_digits(decimal(i.playtime)) == decimal(i.playtime));
}

/// The record of `key` among `entries` (the last one with that key, as a
/// map filled in order keeps it).
pub open spec fn info_of(entries: Seq<(String, InstalledInfo)>, key: Seq<char>) -> Option<InfoModel>
    decreases entries.len(),
{
    if entries.len() == 0 {
        None
    } else if entries.last().0@ == key {
        Some(entries.last().1.model())
    } else {
        info_of(entries.drop_last(), key)
    }
}

/// The installed ports, by key.
pub struct InstalledPorts {
    entries: Vec<(String, InstalledInfo)>,
}

/// No key has two entries.
pub open spec fn keys_unique(entries: Seq<(String, InstalledInfo)>) -> bool {
    forall|i: int, j: int| 0 <= i < j < entries.len() ==> #[trigger] entries[i].0@ != #[trigger] entries[j].0@
}

/// A key without a record has no entry.
proof fn lemma_info_of_none(entries: Seq<(String, InstalledInfo)>, key: Seq<char>)
    requires
        info_of(entries, key) is None,
    ensures
        forall|j: int| 0 <= j < entries.len() ==> #[trigger] entries[j].0@ != key,
    decreases entries.len(),
{
    if entries.len() > 0 {
        lemma_info_of_none(entries.drop_last(), key);
        assert forall|j: int| 0 <= j < entries.len() implies #[trigger] entries[j].0@ != key by {
            if j < entries.len() - 1 {
                assert(entries[j] == entries.drop_last()[j]);
            }
        }
    }
}

proof fn lemma_info_of_last(entries: Seq<(String, InstalledInfo)>, key: Seq<char>, i: int)
    requires
        -1 <= i < entries.len(),
        forall|j: int| i < j < entries.len() ==> #[trigger] entries[j].0@ != key,
    ensures
        i >= 0 && entries[i].0@ == key ==> info_of(entries, key) == Some(entries[i].1.model()),
        i == -1 ==> info_of(entries, key) is None,
    decreases entries.len(),
{
    if entries.len() > 0 && i < entries.len() - 1 {
        let d = entries.drop_last();
        assert(entries[entries.len() - 1].0@ != key);
        assert forall|j: int| i < j < d.len() implies #[trigger] d[j].0@ != key by {
            assert(d[j] == entries[j]);
        }
        lemma_info_of_last(d, key, i);
        if i >= 0 {
            assert(d[i] == entries[i]);
        }
    }
}

/// Changing the entry at `i`, the last with its key, changes the record of
/// that key only.
proof fn lemma_info_of_update(
    entries: Seq<(String, InstalledInfo)>,
    i: int,
    e: (String, InstalledInfo),
    key: Seq<char>,
)
    requires
        0 <= i < entries.len(),
        e.0@ == entries[i].0@,
        forall|j: int| i < j < entries.len() ==> #[trigger] entries[j].0@ != entries[i].0@,
    ensures
        info_of(entries.update(i, e), key) == if key == e.0@ {
            Some(e.1.model())
        } else {
            info_of(entries, key)
        },
    decreases entries.len(),
{
    let u = entries.update(i, e);
    if i == entries.len() - 1 {
        assert(u.last() == e);
        assert(u.drop_last() =~= entries.drop_last());
    } else {
        let d = entries.drop_last();
        assert(u.last() == entries.last());
        assert(entries[entries.len() - 1].0@ != entries[i].0@);
        assert(u.drop_last() =~= d.update(i, e));
        assert forall|j: int| i < j < d.len() implies #[trigger] d[j].0@ != d[i].0@ by {
            assert(d[j] == entries[j]);
        }
        lemma_info_of_update(d, i, e, key);
    }
}

/// Adding an entry sets the record of its key only.
proof fn lemma_info_of_push(entries: Seq<(String, InstalledInfo)>, e: (String, InstalledInfo), key: Seq<char>)
    ensures
        info_of(entries.push(e), key) == if key == e.0@ {
            Some(e.1.model())
        } else {
            info_of(entries, key)
        },
{
    assert(entries.push(e).last() == e);
    assert(entries.push(e).drop_last() =~= entries);
}

/// Removing an entry keeps the records of the other keys.
proof fn lemma_info_of_remove(entries: Seq<(String, InstalledInfo)>, i: int, key: Seq<char>)
    requires
        0 <= i < entries.len(),
        key != entries[i].0@,
    ensures
        info_of(entries.remove(i), key) == info_of(entries, key),
    decreases entries.len(),
{
    if i == entries.len() - 1 {
        assert(entries.remove(i) =~= entries.drop_last());
    } else {
        let d = entries.drop_last();
        assert(entries.remove(i).last() == entries.last());
        assert(entries.remove(i).drop_last() =~= d.remove(i));
        lemma_info_of_remove(d, i, key);
    }
}

/// The last member named `key` whose value is an object.
pub open spec fn last_object(members: Seq<(Seq<char>, JsonModel)>, key: Seq<char>) -> Option<JsonModel>
    decreases members.len(),
{
    if members.len() == 0 {
        None
    } else if members.last().0 == key && members.last().1 is Object {
        Some(members.last().1)
    } else {
        last_object(members.drop_last(), key)
    }
}

/// The record of `key` read from the saved `installed` object: its last
/// entry whose value is an object; none when `v` is not an object.
pub open spec fn loaded_info(v: JsonModel, key: Seq<char>) -> Option<InfoModel> {
    match v {
        JsonModel::Object(m) => match last_object(m, key) {
            Some(o) => Some(info_from_model(o)),
            None => None,
        },
        _ => None,
    }
}

/// The saved members of some entries.
pub open spec fn entries_json(entries: Seq<(String, InstalledInfo)>) -> Seq<(Seq<char>, JsonModel)> {
    entries.map_values(|e: (String, InstalledInfo)| (e.0@, info_json(e.1.model())))
}

proof fn lemma_info_of_bounded(entries: Seq<(String, InstalledInfo)>, key: Seq<char>)
    ensures
        info_of(entries, key) matches Some(i) ==> i.playtime <= u64::MAX,
    decreases entries.len(),
{
    if entries.len() > 0 {
        lemma_info_of_bounded(entries.drop_last(), key);
    }
}

proof fn lemma_entries_json_last(entries: Seq<(String, InstalledInfo)>, key: Seq<char>)
    ensures
        match info_of(entries, key) {
            Some(i) => last_object(entries_json(entries), key) == Some(info_json(i)),
            None => last_object(entries_json(entries), key) is None,
        },
    decreases entries.len(),
{
    if entries.len() > 0 {
        let j = entries_json(entries);
        assert(j.drop_last() =~= entries_json(entries.drop_last()));
        assert(j.last() == (entries.last().0@, info_json(entries.last().1.model())));
        lemma_entries_json_last(entries.drop_last(), key);
    }
}

impl InstalledPorts {
    /// Each installed port has one entry.
    #[verifier::type_invariant]
    spec fn unique_keys(self) -> bool {
        keys_unique(self.entries@)
    }

    /// The record of `key`, if the port is installed.
    pub closed spec fn info(&self, key: Seq<char>) -> Option<InfoModel> {
        info_of(self.entries@, key)
    }

    /// No port installed.
    pub fn new() -> (r: InstalledPorts)
        ensures
            forall|k: Seq<char>| r.info(k) is None,
    {
        InstalledPorts { entries: Vec::new() }
    }

    /// Position of the first entry of `key`.
    fn position(&self, key: &str) -> (r: Option<usize>)
        ensures
            match r {
                Some(i) => i < self.entries@.len() && self.entries@[i as int].0@ == key@ && forall|j: int|
                    i < j < self.entries@.len() ==> #[trigger] self.entries@[j].0@ != key@,
                None => self.info(key@) is None,
            },
    {
        let mut i: usize = self.entries.len();
        while i > 0
            invariant
                i <= self.entries@.len(),
                forall|j: int| i <= j < self.entries@.len() ==> #[trigger] self.entries@[j].0@ != key@,
            decreases i,
        {
            if same_text(self.entries[i - 1].0.as_str(), key) {
                return Some(i - 1);
            }
            i = i - 1;
        }
        proof {
            lemma_info_of_last(self.entries@, key@, -1);
        }
        None
    }

    /// The record of `key`.
    pub fn get(&self, key: &str) -> (r: Option<&InstalledInfo>)
        ensures
            match r {
                Some(i) => self.info(key@) == Some(i.model()),
                None => self.info(key@) is None,
            },
    {
        match self.position(key) {
            Some(i) => {
                proof {
                    lemma_info_of_last(self.entries@, key@, i as int);
                }
                Some(&self.entries[i].1)
            },
            None => None,
        }
    }

    /// Replaces the record of `key` (whose first entry is at `i`) by `info`.
    fn replace_at(&mut self, i: usize, info: InstalledInfo)
        requires
            i < old(self).entries@.len(),
            forall|j: int|
                i < j < old(self).entries@.len() ==> #[trigger] old(self).entries@[j].0@ != old(self).entries@[i as int].0@,
        ensures
            forall|k: Seq<char>|
                #![trigger final(self).info(k)]
                final(self).info(k) == if k == old(self).entries@[i as int].0@ {
                    Some(info.model())
                } else {
                    old(self).info(k)
                },
    {
        proof {
            use_type_invariant(&*self);
        }
        let key = self.entries[i].0.clone();
        let ghost e = (key, info);
        let ghost before = self.entries@;
        let mut v: Vec<(String, InstalledInfo)> = Vec::new();
        std::mem::swap(&mut v, &mut self.entries);
        v.set(i, (key, info));
        proof {
            assert(v@ == before.update(i as int, e));
            assert forall|a: int, b: int| 0 <= a < b < v@.len() implies #[trigger] v@[a].0@ != #[trigger] v@[b].0@ by {
                assert(v@[a].0@ == before[a].0@);
                assert(v@[b].0@ == before[b].0@);
            }
        }
        self.entries = v;
        proof {
            assert(self.entries@ == before.update(i as int, e));
            assert forall|k: Seq<char>| #![trigger info_of(self.entries@, k)] info_of(self.entries@, k) == if k
                == before[i as int].0@ {
                Some(info.model())
            } else {
                info_of(before, k)
            } by {
                lemma_info_of_update(before, i as int, e, k);
            }
        }
    }

    /// Adds a record for `key`, which has none.
    fn add(&mut self, key: &str, info: InstalledInfo)
        requires
            old(self).info(key@) is None,
        ensures
            forall|k: Seq<char>|
                #![trigger final(self).info(k)]
                final(self).info(k) == if k == key@ {
                    Some(info.model())
                } else {
                    old(self).info(k)
                },
    {
        proof {
            use_type_invariant(&*self);
            lemma_info_of_none(self.entries@, key@);
        }
        let ghost before = self.entries@;
        let e = (key.to_owned(), info);
        let ghost eg = e;
        let mut v: Vec<(String, InstalledInfo)> = Vec::new();
        std::mem::swap(&mut v, &mut self.entries);
        v.push(e);
        proof {
            assert forall|a: int, b: int| 0 <= a < b < v@.len() implies #[trigger] v@[a].0@ != #[trigger] v@[b].0@ by {
                if b == before.len() {
                    assert(v@[b] == eg);
                    assert(v@[a] == before[a]);
                } else {
                    assert(v@[a] == before[a] && v@[b] == before[b]);
                }
            }
        }
        self.entries = v;
        proof {
            assert forall|k: Seq<char>| #![trigger info_of(self.entries@, k)] info_of(self.entries@, k) == if k
                == key@ {
                Some(info.model())
            } else {
                info_of(before, k)
            } by {
                lemma_info_of_push(before, eg, k);
            }
        }
    }

    /// The record of `key`, or a new one created at `now`, as a copy.
    fn entry_copy(&self, key: &str, now: &str) -> (r: (InstalledInfo, Option<usize>))
        ensures
            r.0.model() == entry_or_new(self.info(key@), now@),
            match r.1 {
                Some(i) => i < self.entries@.len() && self.entries@[i as int].0@ == key@ && forall|j: int|
                    i < j < self.entries@.len() ==> #[trigger] self.entries@[j].0@ != key@,
                None => self.info(key@) is None,
            },
    {
        match self.position(key) {
            Some(i) => {
                proof {
                    lemma_info_of_last(self.entries@, key@, i as int);
                }
                (self.entries[i].1.duplicate(), Some(i))
            },
            None => {
                let mut info = InstalledInfo::default();
                info.installed_at = now.to_owned();
                (info, None)
            },
        }
    }

    /// Stores `info` as the record of `key`, found at `pos` (see `entry_copy`).
    fn store(&mut self, key: &str, pos: Option<usize>, info: InstalledInfo)
        requires
            match pos {
                Some(i) => i < old(self).entries@.len() && old(self).entries@[i as int].0@ == key@ && forall|j: int|
                    i < j < old(self).entries@.len() ==> #[trigger] old(self).entries@[j].0@ != key@,
                None => old(self).info(key@) is None,
            },
        ensures
            forall|k: Seq<char>|
                #![trigger final(self).info(k)]
                final(self).info(k) == if k == key@ {
                    Some(info.model())
                } else {
                    old(self).info(k)
                },
    {
        match pos {
            Some(i) => self.replace_at(i, info),
            None => self.add(key, info),
        }
    }

    /// Records an installation of `key` at `now` with `tag` (see
    /// `after_install`).
    pub fn mark_installed(&mut self, key: &str, tag: Option<String>, now: &str)
        ensures
            forall|k: Seq<char>|
                #![trigger final(self).info(k)]
                final(self).info(k) == if k == key@ {
                    Some(after_install(old(self).info(key@), opt_text(tag), now@))
                } else {
                    old(self).info(k)
                },
    {
        let (mut info, pos) = self.entry_copy(key, now);
        info.installed_tag = tag;
        info.installed_at = now.to_owned();
        self.store(key, pos, info);
    }

    /// Records the end of an installation of `key` at `now` with `tag`; an
    /// installation of a chosen version (`pin_version`) also turns the
    /// port's automatic updates off.
    pub fn record_install(&mut self, key: &str, tag: Option<String>, pin_version: bool, now: &str)
        ensures
            forall|k: Seq<char>|
                #![trigger final(self).info(k)]
                final(self).info(k) == if k == key@ {
                    Some(
                        if pin_version {
                            after_update_choice(Some(after_install(old(self).info(key@), opt_text(tag), now@)), false, now@)
                        } else {
                            after_install(old(self).info(key@), opt_text(tag), now@)
                        },
                    )
                } else {
                    old(self).info(k)
                },
    {
        let ghost start = *self;
        self.mark_installed(key, tag, now);
        if pin_version {
            let ghost mid = *self;
            self.set_port_update(key, false, now);
            proof {
                assert forall|k: Seq<char>| #![trigger self.info(k)] k != key@ implies self.info(k) == start.info(k) by {
                    assert(self.info(k) == mid.info(k));
                    assert(mid.info(k) == start.info(k));
                }
            }
        }
    }

    /// Records as installed, at `now` and with no known tag, the ports found
    /// on disk (`on_disk[i]` for the port keyed `keys[i]`) that have no
    /// record yet; the other records are kept.
    pub fn adopt_found(&mut self, keys: &[String], on_disk: &[bool], now: &str)
        requires
            keys@.len() == on_disk@.len(),
        ensures
            forall|k: Seq<char>|
                #![trigger final(self).info(k)]
                final(self).info(k) == if old(self).info(k) is None && exists|i: int|
                    0 <= i < keys@.len() && keys@[i]@ == k && on_disk@[i] {
                    Some(after_install(None, None, now@))
                } else {
                    old(self).info(k)
                },
    {
        let ghost start = *self;
        let mut i: usize = 0;
        while i < keys.len()
            invariant
                i <= keys@.len(),
                keys@.len() == on_disk@.len(),
                forall|k: Seq<char>|
                    #![trigger self.info(k)]
                    self.info(k) == if start.info(k) is None && exists|j: int|
                        0 <= j < i && keys@[j]@ == k && on_disk@[j] {
                        Some(after_install(None, None, now@))
                    } else {
                        start.info(k)
                    },
            decreases keys@.len() - i,
        {
            if on_disk[i] && self.get(keys[i].as_str()).is_none() {
                self.mark_installed(keys[i].as_str(), None, now);
            }
            proof {
                assert forall|k: Seq<char>| #![trigger self.info(k)] self.info(k) == if start.info(k) is None
                    && exists|j: int| 0 <= j < i + 1 && keys@[j]@ == k && on_disk@[j] {
                    Some(after_install(None, None, now@))
                } else {
                    start.info(k)
                } by {
                    if k == keys@[i as int]@ && on_disk@[i as int] && start.info(k) is None {
                        assert(0 <= i < i + 1 && keys@[i as int]@ == k && on_disk@[i as int]);
                    }
                    if exists|j: int| 0 <= j < i + 1 && keys@[j]@ == k && on_disk@[j] {
                        if !(exists|j: int| 0 <= j < i && keys@[j]@ == k && on_disk@[j]) {
                            let j = choose|j: int| 0 <= j < i + 1 && keys@[j]@ == k && on_disk@[j];
                            assert(j == i);
                        }
                    }
                }
            }
            i = i + 1;
        }
    }

    /// Forgets the port `key`.
    pub fn mark_removed(&mut self, key: &str)
        ensures
            forall|k: Seq<char>|
                #![trigger final(self).info(k)]
                final(self).info(k) == if k == key@ {
                    None
                } else {
                    old(self).info(k)
                },
    {
        proof {
            use_type_invariant(&*self);
        }
        let ghost start = self.entries@;
        let mut v: Vec<(String, InstalledInfo)> = Vec::new();
        std::mem::swap(&mut v, &mut self.entries);
        let mut i: usize = 0;
        while i < v.len()
            invariant
                i <= v@.len(),
                keys_unique(v@),
                forall|j: int| 0 <= j < i ==> #[trigger] v@[j].0@ != key@,
                forall|k: Seq<char>|
                    k != key@ ==> #[trigger] info_of(v@, k) == info_of(start, k),
            decreases v@.len() - i,
        {
            if same_text(v[i].0.as_str(), key) {
                let ghost before = v@;
                v.remove(i);
                proof {
                    assert forall|k: Seq<char>| k != key@ implies #[trigger] info_of(v@, k) == info_of(
                        start,
                        k,
                    ) by {
                        lemma_info_of_remove(before, i as int, k);
                    }
                    assert forall|j: int| 0 <= j < i implies #[trigger] v@[j].0@ != key@ by {
                        assert(v@[j] == before[j]);
                    }
                    assert forall|a: int, b: int| 0 <= a < b < v@.len() implies #[trigger] v@[a].0@
                        != #[trigger] v@[b].0@ by {
                        let a2 = if a < i { a } else { a + 1 };
                        let b2 = if b < i { b } else { b + 1 };
                        assert(v@[a] == before[a2]);
                        assert(v@[b] == before[b2]);
                    }
                }
            } else {
                i = i + 1;
            }
        }
        proof {
            lemma_info_of_last(v@, key@, -1);
        }
        self.entries = v;
    }

    /// Records that the game of `key` was started at `now`.
    pub fn mark_played(&mut self, key: &str, now: &str)
        ensures
            forall|k: Seq<char>|
                #![trigger final(self).info(k)]
                final(self).info(k) == if k == key@ {
                    Some(after_play(old(self).info(key@), now@))
                } else {
                    old(self).info(k)
                },
    {
        let (mut info, pos) = self.entry_copy(key, now);
        info.last_played_at = now.to_owned();
        self.store(key, pos, info);
    }

    /// Adds `seconds` of play to an installed port; nothing for a port with no
    /// record.
    pub fn add_playtime(&mut self, key: &str, seconds: u64)
        requires
            match old(self).info(key@) {
                Some(i) => i.playtime + seconds <= u64::MAX,
                None => true,
            },
        ensures
            forall|k: Seq<char>|
                #![trigger final(self).info(k)]
                final(self).info(k) == if k == key@ {
                    match old(self).info(key@) {
                        Some(i) => Some(after_playtime(i, seconds as nat)),
                        None => None,
                    }
                } else {
                    old(self).info(k)
                },
    {
        match self.position(key) {
            Some(i) => {
                proof {
                    lemma_info_of_last(self.entries@, key@, i as int);
                }
                let mut info = self.entries[i].1.duplicate();
                info.playtime_seconds = info.playtime_seconds + seconds;
                self.replace_at(i, info);
            },
            None => {},
        }
    }

    /// Sets the play time of an installed port back to zero.
    pub fn reset_playtime(&mut self, key: &str)
        ensures
            forall|k: Seq<char>|
                #![trigger final(self).info(k)]
                final(self).info(k) == if k == key@ {
                    match old(self).info(key@) {
                        Some(i) => Some(InfoModel { playtime: 0, ..i }),
                        None => None,
                    }
                } else {
                    old(self).info(k)
                },
    {
        match self.position(key) {
            Some(i) => {
                proof {
                    lemma_info_of_last(self.entries@, key@, i as int);
                }
                let mut info = self.entries[i].1.duplicate();
                info.playtime_seconds = 0;
                self.replace_at(i, info);
            },
            None => {},
        }
    }

    /// Turns automatic updates of `key` on or off.
    pub fn set_port_update(&mut self, key: &str, value: bool, now: &str)
        ensures
            forall|k: Seq<char>|
                #![trigger final(self).info(k)]
                final(self).info(k) == if k == key@ {
                    Some(after_update_choice(old(self).info(key@), value, now@))
                } else {
                    old(self).info(k)
                },
    {
        let (mut info, pos) = self.entry_copy(key, now);
        info.update = value;
        self.store(key, pos, info);
    }

    /// Sets (or clears) the favourite executable of `key`.
    pub fn set_favorite_exe(&mut self, key: &str, exe: Option<String>, now: &str)
        ensures
            forall|k: Seq<char>|
                #![trigger final(self).info(k)]
                final(self).info(k) == if k == key@ {
                    Some(after_favorite(old(self).info(key@), opt_text(exe), now@))
                } else {
                    old(self).info(k)
                },
    {
        let (mut info, pos) = self.entry_copy(key, now);
        info.favorite_exe = exe;
        self.store(key, pos, info);
    }
}

impl InstalledInfo {
    /// The saved form of this record.
    pub fn to_json(&self) -> (r: JsonValue)
        ensures
            r.model() == info_json(self.model()),
    {
        let tag = match &self.installed_tag {
            Some(t) => JsonValue::String(t.clone()),
            None => JsonValue::Null,
        };
        let fav = match &self.favorite_exe {
            Some(f) => JsonValue::String(f.clone()),
            None => JsonValue::Null,
        };
        let digits = decimal_text(self.playtime_seconds);
        let members: Vec<(String, JsonValue)> = vec![
            ("installed_tag".to_owned(), tag),
            ("installed_at".to_owned(), JsonValue::String(self.installed_at.clone())),
            ("favorite_exe".to_owned(), fav),
            ("update".to_owned(), JsonValue::Bool(self.update)),
            (
                "playtime_seconds".to_owned(),
                JsonValue::Number(
                    JsonNumber { literal: string_of(digits.as_slice()) },
                ),
            ),
            ("last_played_at".to_owned(), JsonValue::String(self.last_played_at.clone())),
        ];
        proof {
            lemma_members_of(members@);
        }
        let r = JsonValue::Object(members);
        proof {
            assert(members_of(members@) =~= seq![
                ("installed_tag"@, text_or_null(self.model().tag)),
                ("installed_at"@, JsonModel::Text(self.installed_at@)),
                ("favorite_exe"@, text_or_null(self.model().favorite)),
                ("update"@, JsonModel::Bool(self.update)),
                ("playtime_seconds"@, JsonModel::Number(decimal(self.playtime_seconds as nat))),
                ("last_played_at"@, JsonModel::Text(self.last_played_at@)),
            ]);
        }
        r
    }

    /// The record read from a saved entry (see `info_from_model`).
    pub fn from_json(v: &JsonValue) -> (r: InstalledInfo)
        ensures
            r.model() == info_from_model(v.model()),
    {
        let installed_tag = match v.text_field("installed_tag") {
            Some(t) => Some(t.to_owned()),
            None => None,
        };
        let installed_at = match v.text_field("installed_at") {
            Some(t) => t.to_owned(),
            None => String::new(),
        };
        let favorite_exe = match v.text_field("favorite_exe") {
            Some(t) => Some(t.to_owned()),
            None => None,
        };
        let update = match v.get("update") {
            Some(x) => match x.as_bool() {
                Some(b) => b,
                None => true,
            },
            None => true,
        };
        let playtime_seconds = match v.get("playtime_seconds") {
            Some(x) => match x.as_u64() {
                Some(n) => n,
                None => 0,
            },
            None => 0,
        };
        let last_played_at = match v.text_field("last_played_at") {
            Some(t) => t.to_owned(),
            None => String::new(),
        };
        InstalledInfo { installed_tag, installed_at, favorite_exe, update, playtime_seconds, last_played_at }
    }
}

impl InstalledPorts {
    /// The saved members of the records, one per entry.
    pub closed spec fn json_members(&self) -> Seq<(Seq<char>, JsonModel)> {
        entries_json(self.entries@)
    }

    /// The saved form: an object with one member per installed port.
    pub fn to_json(&self) -> (r: JsonValue)
        ensures
            r.model() == JsonModel::Object(self.json_members()),
    {
        let mut members: Vec<(String, JsonValue)> = Vec::new();
        let mut i: usize = 0;
        while i < self.entries.len()
            invariant
                i <= self.entries@.len(),
                members@.len() == i,
                forall|j: int|
                    #![trigger members@[j]]
                    0 <= j < i ==> members@[j].0@ == self.entries@[j].0@ && members@[j].1.model() == info_json(
                        self.entries@[j].1.model(),
                    ),
            decreases self.entries@.len() - i,
        {
            let k = self.entries[i].0.clone();
            let v = self.entries[i].1.to_json();
            members.push((k, v));
            i = i + 1;
        }
        proof {
            lemma_members_of(members@);
            assert(members_of(members@) =~= entries_json(self.entries@));
        }
        JsonValue::Object(members)
    }

    /// The records read from the saved `installed` object (see `loaded_info`).
    pub fn from_json(v: &JsonValue) -> (r: InstalledPorts)
        ensures
            forall|k: Seq<char>| #[trigger] r.info(k) == loaded_info(v.model(), k),
    {
        let mut r = InstalledPorts::new();
        match v {
            JsonValue::Object(m) => {
                let ghost ms = members_of(m@);
                proof {
                    lemma_members_of(m@);
                    assert(ms.take(0) =~= Seq::<(Seq<char>, JsonModel)>::empty());
                }
                let mut i: usize = 0;
                while i < m.len()
                    invariant
                        i <= m@.len(),
                        ms == members_of(m@),
                        ms.len() == m@.len(),
                        forall|j: int| 0 <= j < m@.len() ==> #[trigger] ms[j] == (m@[j].0@, m@[j].1.model()),
                        forall|k: Seq<char>|
                            #[trigger] r.info(k) == match last_object(ms.take(i as int), k) {
                                Some(o) => Some(info_from_model(o)),
                                None => None,
                            },
                    decreases m@.len() - i,
                {
                    proof {
                        assert(ms.take(i + 1).drop_last() =~= ms.take(i as int));
                        assert(ms.take(i + 1).last() == ms[i as int]);
                    }
                    if m[i].1.is_object() {
                        let info = InstalledInfo::from_json(&m[i].1);
                        let pos = r.position(m[i].0.as_str());
                        r.store(m[i].0.as_str(), pos, info);
                    }
                    i = i + 1;
                }
                proof {
                    assert(ms.take(m@.len() as int) =~= ms);
                }
            },
            _ => {},
        }
        r
    }
}

/// What is saved of the installed ports reads back as it was: for every
/// key, the record loaded from the saved object is the record kept.
pub proof fn lemma_installed_round_trip(p: InstalledPorts, key: Seq<char>)
    ensures
        loaded_info(JsonModel::Object(p.json_members()), key) == p.info(key),
{
    lemma_entries_json_last(p.entries@, key);
    lemma_info_of_bounded(p.entries@, key);
    match info_of(p.entries@, key) {
        Some(i) => {
            lemma_info_round_trip(i);
        },
        None => {},
    }
}

/// Reinstalling a port (a new version) keeps its favourite executable, its
/// automatic-update choice, its play time and its last play; only the tag
/// and the installation date change.
pub proof fn lemma_reinstall_keeps_choices(i: InfoModel, tag: Option<Seq<char>>, now: Seq<char>)
    ensures
        after_install(Some(i), tag, now).favorite == i.favorite,
        after_install(Some(i), tag, now).update == i.update,
        after_install(Some(i), tag, now).playtime == i.playtime,
        after_install(Some(i), tag, now).last_played == i.last_played,
        after_install(Some(i), tag, now).tag == tag,
        after_install(Some(i), tag, now).installed_at == now,
{
}

/// A port installed for the first time has automatic updates on, no
/// favourite and no play time.
pub proof fn lemma_first_install_defaults(tag: Option<Seq<char>>, now: Seq<char>)
    ensures
        after_install(None, tag, now).update,
        after_install(None, tag, now).favorite is None,
        after_install(None, tag, now).playtime == 0,
{
}

/// Play time accumulates: adding `a` then `b` seconds adds `a + b`.
pub proof fn lemma_playtime_accumulates(i: InfoModel, a: nat, b: nat)
    ensures
        after_playtime(after_playtime(i, a), b) == after_playtime(i, a + b),
{
}

} // verus!
