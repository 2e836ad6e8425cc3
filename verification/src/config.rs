//! Configuration options of the event handler and of HTTP requests, and the
//! checks made on a list of them.
use crate::error::{ErrKind, Error};
use std::collections::HashSet;
use vstd::prelude::*;

verus! {

/// One configuration option.
#[derive(Debug)]
pub enum ConfigOption {
    Debug(bool),
    EvhTimeout(u16),
    EvhThreads(usize),
    EvhReadSlabSize(usize),
    EvhReadSlabCount(usize),
    EvhHouseKeeperFrequencyMillis(usize),
    EvhStatsUpdateMillis(usize),
    HttpContentFile(String),
    HttpContentData(Vec<u8>),
    HttpAccept(String),
    HttpHeader((String, String)),
    HttpTimeoutMillis(u64),
    HttpMeth(String),
    HttpVers(String),
    HttpConnection(String),
    HttpRequestUrl(String),
    HttpRequestUri(String),
    HttpUserAgent(String),
}

/// The name of a configuration option, without its value.
#[derive(Clone, Copy, Debug, PartialEq, Eq, Structural)]
pub enum ConfigName {
    Debug,
    EvhTimeout,
    EvhThreads,
    EvhReadSlabSize,
    EvhReadSlabCount,
    EvhHouseKeeperFrequencyMillis,
    EvhStatsUpdateMillis,
    HttpContentFile,
    HttpContentData,
    HttpAccept,
    HttpHeader,
    HttpTimeoutMillis,
    HttpMeth,
    HttpVers,
    HttpConnection,
    HttpRequestUrl,
    HttpRequestUri,
    HttpUserAgent,
}

/// The name of an option.
pub open spec fn option_name(o: ConfigOption) -> ConfigName {
    match o {
        ConfigOption::Debug(_) => ConfigName::Debug,
        ConfigOption::EvhTimeout(_) => ConfigName::EvhTimeout,
        ConfigOption::EvhThreads(_) => ConfigName::EvhThreads,
        ConfigOption::EvhReadSlabSize(_) => ConfigName::EvhReadSlabSize,
        ConfigOption::EvhReadSlabCount(_) => ConfigName::EvhReadSlabCount,
        ConfigOption::EvhHouseKeeperFrequencyMillis(_) => ConfigName::EvhHouseKeeperFrequencyMillis,
        ConfigOption::EvhStatsUpdateMillis(_) => ConfigName::EvhStatsUpdateMillis,
        ConfigOption::HttpContentFile(_) => ConfigName::HttpContentFile,
        ConfigOption::HttpContentData(_) => ConfigName::HttpContentData,
        ConfigOption::HttpAccept(_) => ConfigName::HttpAccept,
        ConfigOption::HttpHeader(_) => ConfigName::HttpHeader,
        ConfigOption::HttpTimeoutMillis(_) => ConfigName::HttpTimeoutMillis,
        ConfigOption::HttpMeth(_) => ConfigName::HttpMeth,
        ConfigOption::HttpVers(_) => ConfigName::HttpVers,
        ConfigOption::HttpConnection(_) => ConfigName::HttpConnection,
        ConfigOption::HttpRequestUrl(_) => ConfigName::HttpRequestUrl,
        ConfigOption::HttpRequestUri(_) => ConfigName::HttpRequestUri,
        ConfigOption::HttpUserAgent(_) => ConfigName::HttpUserAgent,
    }
}

impl ConfigOption {
    /// The name of this option.
    pub fn name(&self) -> (r: ConfigName)
        ensures
            r == option_name(*self),
    {
        match self {
            ConfigOption::Debug(_) => ConfigName::Debug,
            ConfigOption::EvhTimeout(_) => ConfigName::EvhTimeout,
            ConfigOption::EvhThreads(_) => ConfigName::EvhThreads,
            ConfigOption::EvhReadSlabSize(_) => ConfigName::EvhReadSlabSize,
            ConfigOption::EvhReadSlabCount(_) => ConfigName::EvhReadSlabCount,
            ConfigOption::EvhHouseKeeperFrequencyMillis(_) => ConfigName::EvhHouseKeeperFrequencyMillis,
            ConfigOption::EvhStatsUpdateMillis(_) => ConfigName::EvhStatsUpdateMillis,
            ConfigOption::HttpContentFile(_) => ConfigName::HttpContentFile,
            ConfigOption::HttpContentData(_) => ConfigName::HttpContentData,
            ConfigOption::HttpAccept(_) => ConfigName::HttpAccept,
            ConfigOption::HttpHeader(_) => ConfigName::HttpHeader,
            ConfigOption::HttpTimeoutMillis(_) => ConfigName::HttpTimeoutMillis,
            ConfigOption::HttpMeth(_) => ConfigName::HttpMeth,
            ConfigOption::HttpVers(_) => ConfigName::HttpVers,
            ConfigOption::HttpConnection(_) => ConfigName::HttpConnection,
            ConfigOption::HttpRequestUrl(_) => ConfigName::HttpRequestUrl,
            ConfigOption::HttpRequestUri(_) => ConfigName::HttpRequestUri,
            ConfigOption::HttpUserAgent(_) => ConfigName::HttpUserAgent,
        }
    }
}

/// The options are all among `allowed`, and no name other than those in
/// `dupes` occurs twice.
pub open spec fn config_acceptable(opts: Seq<ConfigOption>, allowed: Seq<ConfigName>, dupes: Seq<ConfigName>) -> bool {
    &&& forall|i: int| 0 <= i < opts.len() ==> allowed.contains(#[trigger] option_name(opts[i]))
    &&& forall|i: int, j: int|
        0 <= i < j < opts.len() && option_name(#[trigger] opts[i]) == option_name(#[trigger] opts[j])
            ==> dupes.contains(option_name(opts[i]))
}

fn contains_name(names: &[ConfigName], n: ConfigName) -> (r: bool)
    ensures
        r == names@.contains(n),
{
    let len = names.len();
    let mut i: usize = 0;
    while i < len
        invariant
            len == names@.len(),
            i <= len,
            forall|k: int| 0 <= k < i ==> names@[k] != n,
        decreases len - i,
    {
        if names[i] == n {
            return true;
        }
        i = i + 1;
    }
    false
}

/// Checks that every option is among `allowed` and that no name other than
/// those in `dupes` occurs twice; otherwise a `Configuration` error.
pub fn check_config(opts: &[ConfigOption], allowed: &[ConfigName], dupes: &[ConfigName]) -> (r: Result<
    (),
    Error,
>)
    ensures
        r is Ok <==> config_acceptable(opts@, allowed@, dupes@),
        r matches Err(e) ==> e.spec_kind() is Configuration,
{
    let n = opts.len();
    let mut i: usize = 0;
    while i < n
        invariant
            n == opts@.len(),
            i <= n,
            forall|k: int| 0 <= k < i ==> allowed@.contains(#[trigger] option_name(opts@[k])),
            forall|a: int, b: int|
                0 <= a < b < n && a < i && option_name(#[trigger] opts@[a]) == option_name(
                    #[trigger] opts@[b],
                ) ==> dupes@.contains(option_name(opts@[a])),
        decreases n - i,
    {
        let name = opts[i].name();
        if !contains_name(allowed, name) {
            return Err(Error::new(ErrKind::Configuration(String::from_str("configuration not allowed"))));
        }
        if !contains_name(dupes, name) {
            let mut j: usize = i + 1;
            while j < n
                invariant
                    n == opts@.len(),
                    i < j <= n,
                    name == option_name(opts@[i as int]),
                    !dupes@.contains(name),
                    forall|b: int| i < b < j ==> option_name(#[trigger] opts@[b]) != name,
                decreases n - j,
            {
                if opts[j].name() == name {
                    assert(option_name(opts@[i as int]) == option_name(opts@[j as int]));
                    assert(!dupes@.contains(option_name(opts@[i as int])));
                    assert(0 <= i < j < opts@.len());
                    assert(!config_acceptable(opts@, allowed@, dupes@));
                    return Err(
                        Error::new(ErrKind::Configuration(String::from_str("duplicate configuration"))),
                    );
                }
                j = j + 1;
            }
        }
        i = i + 1;
    }
    Ok(())
}

/// The index of the first option named `n`, if there is one.
pub open spec fn first_named(opts: Seq<ConfigOption>, n: ConfigName) -> Option<int>
    decreases opts.len(),
{
    if opts.len() == 0 {
        None
    } else {
        match first_named(opts.drop_last(), n) {
            Some(i) => Some(i),
            None => if option_name(opts.last()) == n {
                Some(opts.len() - 1)
            } else {
                None
            },
        }
    }
}

/// `first_named` finds the first option with the name, and only it.
pub proof fn lemma_first_named(opts: Seq<ConfigOption>, n: ConfigName)
    ensures
        match first_named(opts, n) {
            Some(i) => 0 <= i < opts.len() && option_name(opts[i]) == n && forall|k: int|
                0 <= k < i ==> option_name(#[trigger] opts[k]) != n,
            None => forall|k: int| 0 <= k < opts.len() ==> option_name(#[trigger] opts[k]) != n,
        },
    decreases opts.len(),
{
    if opts.len() > 0 {
        lemma_first_named(opts.drop_last(), n);
        assert forall|k: int| 0 <= k < opts.len() - 1 implies opts.drop_last()[k] == opts[k] by {}
    }
}

/// The index of the first option named `n`, if there is one.
pub fn find_option(opts: &[ConfigOption], n: ConfigName) -> (r: Option<usize>)
    ensures
        match first_named(opts@, n) {
            Some(i) => r == Some(i as usize),
            None => r is None,
        },
        r matches Some(i) ==> i < opts@.len() && option_name(opts@[i as int]) == n && first_named(
            opts@,
            n,
        ) == Some(i as int),
        r is None ==> first_named(opts@, n) is None,
{
    let len = opts.len();
    let mut i: usize = 0;
    while i < len
        invariant
            len == opts@.len(),
            i <= len,
            forall|k: int| 0 <= k < i ==> option_name(#[trigger] opts@[k]) != n,
        decreases len - i,
    {
        if opts[i].name() == n {
            proof {
                lemma_first_named(opts@, n);
                assert(option_name(opts@[i as int]) == n);
                let f = first_named(opts@, n);
                assert(f is Some);
                let i0 = f->0;
                assert(option_name(opts@[i0]) == n);
                if i0 < i {
                    assert(option_name(opts@[i0]) != n);
                }
                if i < i0 {
                    assert(option_name(opts@[i as int]) != n);
                }
            }
            return Some(i);
        }
        i = i + 1;
    }
    proof {
        lemma_first_named(opts@, n);
    }
    None
}

/// A structure whose settings can be assigned by name, as the options of a
/// configuration are applied to it. Values of the supported types are set
/// through the method for their type; the names whose values are lists that
/// may take the same name more than once are given by `allow_dupes`.
pub trait Configurable {
    /// Sets the setting `name` to a `u8`.
    fn set_u8(&mut self, name: &str, value: u8);
    /// Sets the setting `name` to a `u16`.
    fn set_u16(&mut self, name: &str, value: u16);
    /// Sets the setting `name` to a `u32`.
    fn set_u32(&mut self, name: &str, value: u32);
    /// Sets the setting `name` to a `u64`.
    fn set_u64(&mut self, name: &str, value: u64);
    /// Sets the setting `name` to a `u128`.
    fn set_u128(&mut self, name: &str, value: u128);
    /// Sets the setting `name` to a `usize`.
    fn set_usize(&mut self, name: &str, value: usize);
    /// Sets the setting `name` to a `String`.
    fn set_string(&mut self, name: &str, value: String);
    /// Sets the setting `name` to a `bool`.
    fn set_bool(&mut self, name: &str, value: bool);
    /// Sets the setting `name` to a pair of strings.
    fn set_string_tuple(&mut self, name: &str, value: (String, String));
    /// The names of the settings that may be given more than once.
    fn allow_dupes(&self) -> HashSet<String>;
}

/// How a trait is implemented: anonymously (`impl`) or boxed (`dyn`), each
/// with or without the `Send` and `Sync` markers.
#[derive(Clone, Copy, Debug, PartialEq, Eq, Structural, Hash)]
pub enum TraitType {
    /// Anonymous implementation.
    Impl,
    /// Boxed `dyn` implementation.
    Dyn,
    /// Anonymous implementation with `Send`.
    ImplSend,
    /// Anonymous implementation with `Send` and `Sync`.
    ImplSync,
    /// Boxed `dyn` implementation with `Send`.
    DynSend,
    /// Boxed `dyn` implementation with `Send` and `Sync`.
    DynSync,
}

} // verus!
