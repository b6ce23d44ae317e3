//! The process-wide environment cache: a fixed whitelist of variables is
//! copied in once at startup, before any lookup; afterwards the cache is
//! only read. The entries live in a hash map keyed by the Fx hasher.

use vstd::prelude::*;

verus! {

#[verifier::external_type_specification]
#[verifier::external_body]
pub struct ExFxBuildHasher(rustc_hash::FxBuildHasher);

/// The map type the cache is built on.
pub type EnvMap = rustc_hash::FxHashMap<String, String>;

/// The variables a cache holds, as a map from name to value.
pub uninterp spec fn env_entries(m: EnvMap) -> Map<Seq<char>, Seq<char>>;

/// A cache with nothing in it.
pub open spec fn empty_env() -> Map<Seq<char>, Seq<char>> {
    Map::empty()
}

/// Relies on HashMap::default with the Fx hasher: a fresh map holds
/// nothing.
#[verifier::external_body]
fn env_map_new() -> (r: EnvMap)
    ensures
        env_entries(r) == empty_env(),
{
    rustc_hash::FxHashMap::default()
}

/// Relies on HashMap::insert: stores one variable, replacing any earlier
/// value under the same name.
#[verifier::external_body]
fn env_map_insert(m: &mut EnvMap, k: String, v: String)
    ensures
        env_entries(*final(m)) == env_entries(*old(m)).insert(k@, v@),
{
    m.insert(k, v);
}

/// Relies on HashMap::get: the stored value of a variable, exactly when
/// one is stored.
#[verifier::external_body]
fn env_map_get<'a>(m: &'a EnvMap, k: &str) -> (r: Option<&'a String>)
    ensures
        match r {
            Some(v) => env_entries(*m).dom().contains(k@) && v@ == env_entries(*m)[k@],
            None => !env_entries(*m).dom().contains(k@),
        },
{
    m.get(k)
}

/// The write-once cache of whitelisted environment variables.
pub struct EnvCache {
    map: EnvMap,
}

impl View for EnvCache {
    type V = Map<Seq<char>, Seq<char>>;

    closed spec fn view(&self) -> Map<Seq<char>, Seq<char>> {
        env_entries(self.map)
    }
}

impl EnvCache {
    /// An empty cache, to be filled once before any lookup.
    pub fn new() -> (r: Self)
        ensures
            r@ == empty_env(),
    {
        EnvCache { map: env_map_new() }
    }

    /// Stores one variable's value while the cache is being built.
    pub fn set(&mut self, name: String, value: String)
        ensures
            final(self)@ == old(self)@.insert(name@, value@),
    {
        env_map_insert(&mut self.map, name, value);
    }

    /// The cached value of a variable, or the given default when the
    /// variable was not captured.
    pub fn get_env_var<'a>(&'a self, name: &str, default: &'a str) -> (r: &'a str)
        ensures
            r@ == (if self@.dom().contains(name@) {
                self@[name@]
            } else {
                default@
            }),
    {
        match env_map_get(&self.map, name) {
            Some(v) => v.as_str(),
            None => default,
        }
    }
}

} // verus!
