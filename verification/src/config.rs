//! The catalogue (`ports.json`) and the user's own catalogue
//! (`ports.local.json`) read from their JSON values, and the two merged.
//! A broken main catalogue is an error; a broken local one is an empty one.

use crate::json::{get_model, lemma_models_of, models_of, parse_json, spec_json_parse, JsonModel, JsonValue};
use crate::models::{entry_error, entry_port, port_from_value, Port};
use crate::text::same_text;
use vstd::prelude::*;

verus! {

/// `std::io::Error`, carried through as it is.
#[verifier::external_type_specification]
#[verifier::external_body]
pub struct ExIoError(std::io::Error);

/// Why the catalogue cannot be used.
#[derive(Debug)]
pub enum ConfigError {
    /// The file could not be read.
    Io(std::io::Error),
    /// The file is not JSON (the parser's message).
    Json(String),
    /// The JSON value is not an object.
    NotAnObject,
    /// No entry of the catalogue is a usable port.
    NoPorts,
}

/// The text of an I/O error (its `Display`). Nothing is promised of it.
#[verifier::external_body]
fn io_error_text(e: &std::io::Error) -> (r: String) {
    e.to_string()
}

impl ConfigError {
    /// The message shown for this error.
    pub fn message(&self) -> (r: String)
        ensures
            match self {
                ConfigError::Io(_) => true,
                ConfigError::Json(m) => r@ == m@,
                ConfigError::NotAnObject => r@ == "la racine de ports.json n'est pas un objet"@,
                ConfigError::NoPorts => r@ == "ports.json ne contient aucun port"@,
            },
    {
        match self {
            ConfigError::Io(e) => io_error_text(e),
            ConfigError::Json(m) => m.clone(),
            ConfigError::NotAnObject => "la racine de ports.json n'est pas un objet".to_owned(),
            ConfigError::NoPorts => "ports.json ne contient aucun port".to_owned(),
        }
    }
}

/// The entries of a catalogue: its `ports` array (none when absent or not an
/// array).
pub open spec fn catalog_entries(d: JsonModel) -> Seq<JsonModel> {
    match get_model(d, "ports"@) {
        Some(JsonModel::Array(a)) => a,
        _ => Seq::empty(),
    }
}

/// The entries that are usable ports, in order (a malformed entry is skipped).
pub open spec fn accepted(items: Seq<JsonModel>) -> Seq<JsonModel> {
    items.filter(|e: JsonModel| entry_error(e) is None)
}

/// `ports` are the ports read from `entries`, one for one.
pub open spec fn ports_of(ports: Seq<Port>, entries: Seq<JsonModel>) -> bool {
    &&& ports.len() == entries.len()
    &&& forall|i: int| 0 <= i < ports.len() ==> entry_port(#[trigger] ports[i], entries[i])
}

/// The ports read from the usable entries of a catalogue.
fn read_entries(d: &JsonValue) -> (r: Vec<Port>)
    ensures
        ports_of(r@, accepted(catalog_entries(d.model()))),
{
    let mut out: Vec<Port> = Vec::new();
    proof {
        reveal(Seq::filter);
    }
    match d.get("ports") {
        Some(JsonValue::Array(items)) => {
            let ghost ms = models_of(items@);
            proof {
                lemma_models_of(items@);
                assert(ms.take(0) =~= Seq::<JsonModel>::empty());
            }
            let mut i: usize = 0;
            while i < items.len()
                invariant
                    i <= items@.len(),
                    ms == models_of(items@),
                    ms.len() == items@.len(),
                    forall|k: int| 0 <= k < items@.len() ==> #[trigger] ms[k] == items@[k].model(),
                    ports_of(out@, accepted(ms.take(i as int))),
                decreases items@.len() - i,
            {
                proof {
                    reveal(Seq::filter);
                    assert(ms.take(i + 1).drop_last() =~= ms.take(i as int));
                    assert(ms.take(i + 1).last() == items@[i as int].model());
                }
                match port_from_value(&items[i]) {
                    Ok(p) => {
                        let ghost before = out@;
                        out.push(p);
                        proof {
                            let a = accepted(ms.take(i + 1));
                            assert(a == accepted(ms.take(i as int)).push(items@[i as int].model()));
                            assert forall|k: int| 0 <= k < out@.len() implies entry_port(#[trigger] out@[k], a[k]) by {
                                if k < before.len() {
                                    assert(out@[k] == before[k]);
                                }
                            }
                        }
                    },
                    Err(_) => {},
                }
                i = i + 1;
            }
            proof {
                assert(ms.take(items@.len() as int) =~= ms);
            }
            out
        },
        _ => {
            proof {
                assert(accepted(Seq::<JsonModel>::empty()) =~= Seq::<JsonModel>::empty());
            }
            out
        },
    }
}

/// Reads the catalogue from its JSON value: an object whose `ports` array
/// holds at least one usable entry; malformed entries are skipped.
pub fn parse_catalog(data: &JsonValue) -> (r: Result<Vec<Port>, ConfigError>)
    ensures
        match r {
            Ok(ports) => data.model() is Object && accepted(catalog_entries(data.model())).len() > 0 && ports_of(
                ports@,
                accepted(catalog_entries(data.model())),
            ),
            Err(ConfigError::NotAnObject) => !(data.model() is Object),
            Err(ConfigError::NoPorts) => data.model() is Object && accepted(catalog_entries(data.model())).len()
                == 0,
            Err(_) => false,
        },
{
    if !data.is_object() {
        return Err(ConfigError::NotAnObject);
    }
    let ports = read_entries(data);
    if ports.len() == 0 {
        return Err(ConfigError::NoPorts);
    }
    Ok(ports)
}

/// Reads the catalogue from its text: the parser's message when it is not
/// JSON, else as `parse_catalog` reads the parsed value.
pub fn parse_catalog_text(text: &str) -> (r: Result<Vec<Port>, ConfigError>)
    ensures
        match spec_json_parse(text@) {
            None => r matches Err(ConfigError::Json(_)),
            Some(d) => match r {
                Ok(ports) => d is Object && accepted(catalog_entries(d)).len() > 0 && ports_of(
                    ports@,
                    accepted(catalog_entries(d)),
                ),
                Err(ConfigError::NotAnObject) => !(d is Object),
                Err(ConfigError::NoPorts) => d is Object && accepted(catalog_entries(d)).len() == 0,
                Err(_) => false,
            },
        },
{
    match parse_json(text) {
        Ok(v) => parse_catalog(&v),
        Err(m) => Err(ConfigError::Json(m)),
    }
}

/// Reads the user's catalogue from its text: none when it is not JSON (see
/// `parse_local_catalog` otherwise).
pub fn parse_local_catalog_text(text: &str) -> (r: Vec<Port>)
    ensures
        ports_of(
            r@,
            match spec_json_parse(text@) {
                Some(d) => if d is Object {
                    accepted(catalog_entries(d))
                } else {
                    Seq::empty()
                },
                None => Seq::empty(),
            },
        ),
{
    match parse_json(text) {
        Ok(v) => parse_local_catalog(&v),
        Err(_) => Vec::new(),
    }
}

/// Reads the user's catalogue from its JSON value: the usable entries of its
/// `ports` array; none when it is not an object.
pub fn parse_local_catalog(data: &JsonValue) -> (r: Vec<Port>)
    ensures
        ports_of(
            r@,
            if data.model() is Object {
                accepted(catalog_entries(data.model()))
            } else {
                Seq::empty()
            },
        ),
{
    if !data.is_object() {
        return Vec::new();
    }
    read_entries(data)
}

/// `ports` without those installed in `folder`.
pub open spec fn without_folder(ports: Seq<Port>, folder: Seq<char>) -> Seq<Port> {
    ports.filter(|p: Port| p.folder@ != folder)
}

/// The main catalogue with the local entries added in order, each replacing
/// the entries of the same folder before it.
pub open spec fn merged(main: Seq<Port>, local: Seq<Port>) -> Seq<Port>
    decreases local.len(),
{
    if local.len() == 0 {
        main
    } else {
        without_folder(merged(main, local.drop_last()), local.last().folder@).push(local.last())
    }
}

/// A local entry replaces the entries of its folder: after merging, the
/// last local entry comes last and no other entry has its folder.
pub proof fn lemma_merge_replaces(main: Seq<Port>, local: Seq<Port>)
    requires
        local.len() > 0,
    ensures
        merged(main, local).last() == local.last(),
        forall|i: int|
            0 <= i < merged(main, local).len() - 1 ==> (#[trigger] merged(main, local)[i]).folder@ != local.last().folder@,
{
    broadcast use vstd::seq_lib::group_filter_ensures;

    let f = local.last().folder@;
    let prev = merged(main, local.drop_last());
    let w = without_folder(prev, f);
    let m = merged(main, local);
    assert(m == w.push(local.last()));
    assert forall|i: int| 0 <= i < m.len() - 1 implies (#[trigger] m[i]).folder@ != f by {
        assert(m[i] == w[i]);
    }
}

/// Removes from `ports` those installed in `folder`.
fn remove_folder(ports: Vec<Port>, folder: &str) -> (r: Vec<Port>)
    ensures
        r@ == without_folder(ports@, folder@),
{
    let ghost orig = ports@;
    let mut rest = ports;
    let mut kept: Vec<Port> = Vec::new();
    proof {
        reveal(Seq::filter);
        assert(orig.take(0) =~= Seq::<Port>::empty());
        assert(orig.skip(0) =~= orig);
    }
    while rest.len() > 0
        invariant
            rest@.len() <= orig.len(),
            rest@ == orig.skip(orig.len() - rest@.len()),
            kept@ == without_folder(orig.take(orig.len() - rest@.len()), folder@),
        decreases rest@.len(),
    {
        let ghost j = orig.len() - rest@.len();
        let p = rest.remove(0);
        proof {
            reveal(Seq::filter);
            assert(rest@ =~= orig.skip(j + 1));
            assert(orig.take(j + 1).drop_last() =~= orig.take(j));
            assert(orig.take(j + 1).last() == p);
        }
        if !same_text(p.folder.as_str(), folder) {
            kept.push(p);
        }
    }
    proof {
        assert(orig.take(orig.len() as int) =~= orig);
    }
    kept
}

/// Merges the user's catalogue into the main one: a local entry replaces
/// every main entry of the same folder, and comes last.
pub fn merge_local_catalog(main: Vec<Port>, local: Vec<Port>) -> (r: Vec<Port>)
    ensures
        r@ == merged(main@, local@),
{
    let ghost lv = local@;
    let ghost mv = main@;
    let mut out = main;
    let mut rest = local;
    proof {
        assert(lv.take(0) =~= Seq::<Port>::empty());
        assert(lv.skip(0) =~= lv);
    }
    while rest.len() > 0
        invariant
            rest@.len() <= lv.len(),
            rest@ == lv.skip(lv.len() - rest@.len()),
            out@ == merged(mv, lv.take(lv.len() - rest@.len())),
        decreases rest@.len(),
    {
        let ghost j = lv.len() - rest@.len();
        let p = rest.remove(0);
        proof {
            assert(rest@ =~= lv.skip(j + 1));
            assert(lv.take(j + 1).drop_last() =~= lv.take(j));
            assert(lv.take(j + 1).last() == p);
        }
        let mut kept = remove_folder(out, p.folder.as_str());
        kept.push(p);
        out = kept;
    }
    proof {
        assert(lv.take(lv.len() as int) =~= lv);
    }
    out
}

/// What a check of the remote catalogue brought.
pub enum CatalogUpdate {
    /// The local copy is already up to date (`304`).
    NotModified,
    /// A new catalogue, already checked to be usable, and its tag.
    Updated { text: String, etag: String },
}

/// The tag to send as `If-None-Match`: none before the first check.
pub fn if_none_match(known_etag: &str) -> (r: Option<String>)
    ensures
        match r {
            Some(t) => known_etag@.len() > 0 && t@ == known_etag@,
            None => known_etag@.len() == 0,
        },
{
    if known_etag.is_empty() {
        None
    } else {
        Some(known_etag.to_owned())
    }
}

/// A downloaded catalogue (`text`, with its tag), kept only when it is a
/// usable catalogue; else the message of the error.
pub fn accept_fetched_catalog(text: String, etag: String) -> (r: Result<CatalogUpdate, String>)
    ensures
        match spec_json_parse(text@) {
            None => r is Err,
            Some(d) => {
                let usable = d is Object && accepted(catalog_entries(d)).len() > 0;
                match r {
                    Ok(CatalogUpdate::Updated { text: t, etag: e }) => usable && t@ == text@ && e@ == etag@,
                    Ok(CatalogUpdate::NotModified) => false,
                    Err(m) => !usable && m@ == if d is Object {
                        "ports.json ne contient aucun port"@
                    } else {
                        "la racine de ports.json n'est pas un objet"@
                    },
                }
            },
        },
{
    match parse_catalog_text(text.as_str()) {
        Ok(_) => Ok(CatalogUpdate::Updated { text, etag }),
        Err(e) => Err(e.message()),
    }
}

} // verus!
