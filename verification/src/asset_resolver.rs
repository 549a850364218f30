use crate::text::same_text;
use vstd::prelude::*;

verus! {

/// Why a resolver could not answer.
#[derive(Debug)]
pub struct AssetError {
    pub message: String,
}

/// A source of named assets: the content of an asset, `None` where the
/// source has no asset of that name, or an error where it could not
/// answer.
pub trait AssetResolver: Send + Sync {
    /// The content of the asset `name`.
    fn resolve(&self, name: &str) -> Result<Option<String>, AssetError>;
}

/// The content of the first entry named `name`, looking from `from` on.
pub open spec fn entry_from(entries: Seq<(String, String)>, name: Seq<char>, from: int) -> Option<
    Seq<char>,
>
    decreases entries.len() - from,
{
    if from < 0 || from >= entries.len() {
        None
    } else if entries[from].0@ == name {
        Some(entries[from].1@)
    } else {
        entry_from(entries, name, from + 1)
    }
}

/// The content of the first entry named `name`.
pub open spec fn entry_of(entries: Seq<(String, String)>, name: Seq<char>) -> Option<Seq<char>> {
    entry_from(entries, name, 0)
}

/// The text of what a resolver found.
pub open spec fn found_text(r: Result<Option<String>, AssetError>) -> Option<Seq<char>> {
    match r {
        Ok(Some(s)) => Some(s@),
        _ => None,
    }
}

/// A resolver over a fixed table of names and contents.
pub struct MapResolver {
    pub entries: Vec<(String, String)>,
}

impl MapResolver {
    /// A resolver over the entries of `map`; of two entries with one name
    /// the first counts.
    pub fn new(map: Vec<(String, String)>) -> (r: Self)
        ensures
            r.entries == map,
    {
        MapResolver { entries: map }
    }
}

impl AssetResolver for MapResolver {
    fn resolve(&self, name: &str) -> (r: Result<Option<String>, AssetError>)
        ensures
            r is Ok,
            found_text(r) == entry_of(self.entries@, name@),
    {
        let mut i: usize = 0;
        while i < self.entries.len()
            invariant
                i <= self.entries.len(),
                entry_of(self.entries@, name@) == entry_from(self.entries@, name@, i as int),
            decreases self.entries.len() - i,
        {
            if same_text(self.entries[i].0.as_str(), name) {
                return Ok(Some(self.entries[i].1.clone()));
            }
            i += 1;
        }
        Ok(None)
    }
}

/// A resolver that asks a function of the host.
pub struct CallbackResolver<F: Fn(&str) -> Option<String>> {
    callback: F,
}

impl<F: Fn(&str) -> Option<String>> CallbackResolver<F> {
    /// The function that the resolver asks.
    pub closed spec fn asked(&self) -> F {
        self.callback
    }

    /// Every name can be handed to the callback.
    #[verifier::type_invariant]
    pub closed spec fn accepts_every_name(&self) -> bool {
        forall|name: &str| call_requires(self.callback, (name,))
    }

    /// A resolver that asks `callback`, which must take every name.
    pub fn new(callback: F) -> (r: Self)
        requires
            forall|name: &str| call_requires(callback, (name,)),
        ensures
            r.asked() == callback,
    {
        CallbackResolver { callback }
    }
}

impl<F: Fn(&str) -> Option<String> + Send + Sync> AssetResolver for CallbackResolver<F> {
    fn resolve(&self, name: &str) -> (r: Result<Option<String>, AssetError>)
        ensures
            r matches Ok(found) && call_ensures(self.asked(), (name,), found),
    {
        proof {
            use_type_invariant(self);
        }
        Ok((self.callback)(name))
    }
}

/// The place of the one resolver that the host has registered. `F` is the
/// type of the callbacks and `R` the type of the other resolvers that it
/// can hold.
pub enum HostResolver<F: Fn(&str) -> Option<String>, R: AssetResolver> {
    /// No resolver is registered.
    Empty,
    /// A fixed table of names and contents is registered.
    Table(MapResolver),
    /// A function of the host is registered.
    Callback(CallbackResolver<F>),
    /// Another resolver is registered.
    Other(R),
}

impl<F: Fn(&str) -> Option<String>, R: AssetResolver> HostResolver<F, R> {
    /// A place with no resolver in it.
    pub fn new() -> (r: Self)
        ensures
            r is Empty,
    {
        HostResolver::Empty
    }
}

/// Puts `resolver` in the host's place, instead of the one that was there.
/// The resolver is not asked.
pub fn register_host_asset_resolver<F: Fn(&str) -> Option<String>, R: AssetResolver>(
    host: &mut HostResolver<F, R>,
    resolver: R,
) -> (r: Result<(), &'static str>)
    ensures
        r is Ok,
        *final(host) == HostResolver::<F, R>::Other(resolver),
{
    *host = HostResolver::Other(resolver);
    Ok(())
}

/// Puts a resolver over a fixed table of names and contents in the host's
/// place, instead of the one that was there.
pub fn register_host_asset_map<F: Fn(&str) -> Option<String>, R: AssetResolver>(
    host: &mut HostResolver<F, R>,
    map: Vec<(String, String)>,
) -> (r: Result<(), &'static str>)
    ensures
        r is Ok,
        *final(host) matches HostResolver::Table(table) && table.entries == map,
{
    *host = HostResolver::Table(MapResolver::new(map));
    Ok(())
}

/// Puts a resolver that asks `cb` in the host's place, instead of the one
/// that was there. The callback is not called.
pub fn register_host_asset_callback<F: Fn(&str) -> Option<String>, R: AssetResolver>(
    host: &mut HostResolver<F, R>,
    cb: F,
) -> (r: Result<(), &'static str>)
    requires
        forall|name: &str| call_requires(cb, (name,)),
    ensures
        r is Ok,
        *final(host) matches HostResolver::Callback(asking) && asking.asked() == cb,
{
    *host = HostResolver::Callback(CallbackResolver::new(cb));
    Ok(())
}

/// Whether `r` is an answer of the host's resolver for `name`: with none
/// registered no asset is found, a registered table answers with the
/// content of its first entry of that name, a registered callback with
/// what it gives for the name, and another resolver with an answer of its
/// own for the name.
pub open spec fn host_answer<F: Fn(&str) -> Option<String>, R: AssetResolver>(
    host: HostResolver<F, R>,
    name: &str,
    r: Result<Option<String>, AssetError>,
) -> bool {
    match host {
        HostResolver::Empty => r matches Ok(None),
        HostResolver::Table(table) => r is Ok && found_text(r) == entry_of(table.entries@, name@),
        HostResolver::Callback(asking) => r matches Ok(found) && call_ensures(
            asking.asked(),
            (name,),
            found,
        ),
        HostResolver::Other(resolver) => call_ensures(R::resolve, (&resolver, name), r),
    }
}

/// Asks the registered resolver for `name`, and hands its answer on; with
/// none registered, no asset is found.
pub fn resolve_with_host<F: Fn(&str) -> Option<String> + Send + Sync, R: AssetResolver>(
    host: &HostResolver<F, R>,
    name: &str,
) -> (r: Result<Option<String>, AssetError>)
    ensures
        host_answer(*host, name, r),
{
    match host {
        HostResolver::Empty => Ok(None),
        HostResolver::Table(table) => table.resolve(name),
        HostResolver::Callback(asking) => asking.resolve(name),
        HostResolver::Other(resolver) => resolver.resolve(name),
    }
}

impl<F: Fn(&str) -> Option<String> + Send + Sync, R: AssetResolver> AssetResolver for HostResolver<
    F,
    R,
> {
    fn resolve(&self, name: &str) -> (r: Result<Option<String>, AssetError>)
        ensures
            host_answer(*self, name, r),
    {
        resolve_with_host(self, name)
    }
}

} // verus!
