//! Configuration sources: command line, YAML file and environment, and which of them wins.
use std::path::PathBuf;

use vstd::prelude::*;

use crate::config::{parse_forwarder, validate_no_duplicates, ForwarderConfig};
use crate::settings::Settings;
use crate::text::{parse_number, to_chars};

verus! {

/// What the command line asks for.
#[derive(Debug)]
pub struct CliArgs {
    /// Path to the YAML configuration file.
    pub config_file: Option<PathBuf>,
    /// Bind address (`host:port`) for the HTTP stats endpoint.
    pub metrics_addr: Option<String>,
    /// Periodic traffic-report log cadence, seconds.
    pub report_interval_secs: Option<u64>,
    /// Throughput-rate sampling cadence, seconds.
    pub sample_interval_secs: Option<u64>,
    /// Per-direction copy buffer size, bytes.
    pub buffer_bytes: Option<usize>,
    /// Kernel socket buffer size per socket, bytes.
    pub socket_buffer_bytes: Option<usize>,
    /// Use the Linux `splice(2)` zero-copy data path.
    pub use_splice: bool,
    /// Forwarders in the form `local_host:local_port:remote_host:remote_port`.
    pub forwarders: Vec<String>,
}

/// The contents of a YAML configuration file.
#[derive(Debug)]
pub struct ConfigFile {
    pub forwarders: Vec<ForwarderConfig>,
    pub settings: Settings,
}

/// What came of reading a configuration file.
#[derive(Debug)]
pub enum ConfigRead<E> {
    /// The file could not be read.
    Unreadable(E),
    /// The file was read and is no configuration.
    Unparsable(E),
    /// The file holds this configuration.
    Parsed(ConfigFile),
}

/// Why no forwarders could be loaded.
#[derive(Debug)]
pub enum LoadError<E> {
    /// A forwarder on the command line says nothing; the text says why.
    Forwarder(String),
    /// Two forwarders listen on the same local endpoint; the text names it.
    Duplicate(String),
    /// The configuration file gave no configuration.
    File(E),
}

/// What a [`LoadError`] says.
pub enum LoadErrorSpec<E> {
    Forwarder(Seq<char>),
    Duplicate(Seq<char>),
    File(E),
}

impl<E> View for LoadError<E> {
    type V = LoadErrorSpec<E>;

    open spec fn view(&self) -> LoadErrorSpec<E> {
        match *self {
            LoadError::Forwarder(m) => LoadErrorSpec::Forwarder(m@),
            LoadError::Duplicate(m) => LoadErrorSpec::Duplicate(m@),
            LoadError::File(e) => LoadErrorSpec::File(e),
        }
    }
}

/// The names and values of environment variables.
pub open spec fn variables(vars: Seq<(String, String)>) -> Seq<(Seq<char>, Seq<char>)> {
    vars.map_values(|v: (String, String)| (v.0@, v.1@))
}

/// The number that the variable `key` carries behind `RFW_FORWARDER_`.
pub open spec fn variable_index(key: Seq<char>) -> Option<nat> {
    let prefix = "RFW_FORWARDER_"@;
    if prefix.len() <= key.len() && key.take(prefix.len() as int) == prefix {
        match crate::text::number(key.skip(prefix.len() as int), usize::MAX as nat) {
            Ok(n) => Some(n),
            Err(_) => None,
        }
    } else {
        None
    }
}

/// A variable that defines a forwarder.
#[verifier::ext_equal]
pub struct Definition {
    pub index: nat,
    pub key: Seq<char>,
    pub value: Seq<char>,
}

/// `list` with `d` behind every definition whose index is not greater.
pub open spec fn insert_by_index(list: Seq<Definition>, d: Definition) -> Seq<Definition>
    decreases list.len(),
{
    if list.len() == 0 || list.last().index <= d.index {
        list.push(d)
    } else {
        insert_by_index(list.drop_last(), d).push(list.last())
    }
}

/// The variables that define a forwarder, by index; those of equal index in the order given.
pub open spec fn definitions(vars: Seq<(Seq<char>, Seq<char>)>) -> Seq<Definition>
    decreases vars.len(),
{
    if vars.len() == 0 {
        Seq::empty()
    } else {
        let front = definitions(vars.drop_last());
        let (key, value) = vars.last();
        match variable_index(key) {
            Some(index) => insert_by_index(front, Definition { index, key, value }),
            None => front,
        }
    }
}

/// The forwarders that the definitions say, in order, without those that say none.
pub open spec fn accepted(list: Seq<Definition>) -> Seq<crate::config::Forwarder>
    decreases list.len(),
{
    if list.len() == 0 {
        Seq::empty()
    } else {
        match crate::config::parse_forwarder_spec(list.last().value) {
            Ok(f) => accepted(list.drop_last()).push(f),
            Err(_) => accepted(list.drop_last()),
        }
    }
}

/// The definitions that say no forwarder, in order, each with the reason.
pub open spec fn rejected(list: Seq<Definition>) -> Seq<(Seq<char>, Seq<char>)>
    decreases list.len(),
{
    if list.len() == 0 {
        Seq::empty()
    } else {
        match crate::config::parse_forwarder_spec(list.last().value) {
            Ok(_) => rejected(list.drop_last()),
            Err(m) => rejected(list.drop_last()).push((list.last().key, m)),
        }
    }
}

struct Entry {
    index: usize,
    key: String,
    value: String,
}

impl View for Entry {
    type V = Definition;

    closed spec fn view(&self) -> Definition {
        Definition { index: self.index as nat, key: self.key@, value: self.value@ }
    }
}

spec fn entries(list: Seq<Entry>) -> Seq<Definition> {
    list.map_values(|e: Entry| e@)
}

fn index_of_variable(key: &String) -> (r: Option<usize>)
    ensures
        match (r, variable_index(key@)) {
            (Some(i), Some(n)) => i == n,
            (None, None) => true,
            _ => false,
        },
{
    let prefix = "RFW_FORWARDER_";
    let expected = to_chars(prefix);
    let chars = to_chars(key.as_str());
    if chars.len() < expected.len() {
        return None;
    }
    let mut i: usize = 0;
    while i < expected.len()
        invariant
            i <= expected.len() <= chars.len(),
            prefix@ == "RFW_FORWARDER_"@,
            expected@ == prefix@,
            chars@ == key@,
            forall|j: int| 0 <= j < i ==> chars@[j] == expected@[j],
        decreases expected.len() - i,
    {
        if chars[i] != expected[i] {
            assert(key@.take(prefix@.len() as int)[i as int] != prefix@[i as int]);
            return None;
        }
        i = i + 1;
    }
    assert(key@.take(prefix@.len() as int) =~= prefix@);
    let suffix = key.as_str().substring_char(expected.len(), chars.len());
    assert(suffix@ =~= key@.skip(prefix@.len() as int));
    match parse_number(suffix, usize::MAX as u64) {
        Ok(n) => Some(n as usize),
        Err(_) => None,
    }
}

proof fn lemma_insert_position(list: Seq<Definition>, d: Definition, at: int)
    requires
        0 <= at <= list.len(),
        at == 0 || list[at - 1].index <= d.index,
        forall|k: int| at <= k < list.len() ==> (#[trigger] list[k]).index > d.index,
    ensures
        insert_by_index(list, d) == list.insert(at, d),
    decreases list.len(),
{
    if at < list.len() {
        lemma_insert_position(list.drop_last(), d, at);
        assert(list.drop_last().insert(at, d).push(list.last()) =~= list.insert(at, d));
    } else {
        assert(list.push(d) =~= list.insert(at, d));
    }
}

fn insert_entry(list: &mut Vec<Entry>, entry: Entry)
    ensures
        entries(final(list)@) == insert_by_index(entries(old(list)@), entry@),
{
    let mut at: usize = list.len();
    while at > 0 && list[at - 1].index > entry.index
        invariant
            at <= list.len(),
            forall|k: int| at <= k < list.len() ==> (#[trigger] list@[k]).index > entry.index,
        decreases at,
    {
        at = at - 1;
    }
    proof {
        let before = entries(list@);
        assert forall|k: int| at <= k < before.len() implies (#[trigger] before[k]).index
            > entry@.index by {
            assert(list@[k].index > entry.index);
        }
        lemma_insert_position(before, entry@, at as int);
        assert(entries(list@.insert(at as int, entry)) =~= before.insert(at as int, entry@));
    }
    list.insert(at, entry);
}

/// The forwarders that the environment defines.
#[derive(Debug)]
pub struct EnvForwarders {
    /// The forwarders, by the number of their variable.
    pub forwarders: Vec<ForwarderConfig>,
    /// The variables that were passed over, each with the reason.
    pub ignored: Vec<(String, String)>,
}

/// Reads forwarders from the variables named `RFW_FORWARDER_` and a number.
pub fn load_env_forwarders(vars: &[(String, String)]) -> (r: EnvForwarders)
    ensures
        crate::config::forwarders(r.forwarders@) == accepted(definitions(variables(vars@))),
        variables(r.ignored@) == rejected(definitions(variables(vars@))),
{
    let ghost all = variables(vars@);
    let mut list: Vec<Entry> = Vec::new();
    let mut i: usize = 0;
    assert(all.take(0) =~= Seq::<(Seq<char>, Seq<char>)>::empty());
    assert(entries(list@) =~= Seq::<Definition>::empty());
    while i < vars.len()
        invariant
            i <= vars.len(),
            all == variables(vars@),
            entries(list@) == definitions(all.take(i as int)),
        decreases vars.len() - i,
    {
        let var = &vars[i];
        proof {
            assert(all.take(i + 1).drop_last() =~= all.take(i as int));
            assert(all.take(i + 1).last() == (var.0@, var.1@));
        }
        if let Some(index) = index_of_variable(&var.0) {
            insert_entry(&mut list, Entry { index, key: var.0.clone(), value: var.1.clone() });
        }
        i = i + 1;
    }
    assert(all.take(i as int) =~= all);
    let ghost defs = definitions(all);
    let mut forwarders: Vec<ForwarderConfig> = Vec::new();
    let mut ignored: Vec<(String, String)> = Vec::new();
    let mut j: usize = 0;
    assert(defs.take(0) =~= Seq::<Definition>::empty());
    assert(crate::config::forwarders(forwarders@) =~= Seq::<crate::config::Forwarder>::empty());
    assert(variables(ignored@) =~= Seq::<(Seq<char>, Seq<char>)>::empty());
    while j < list.len()
        invariant
            j <= list.len(),
            entries(list@) == defs,
            crate::config::forwarders(forwarders@) == accepted(defs.take(j as int)),
            variables(ignored@) == rejected(defs.take(j as int)),
        decreases list.len() - j,
    {
        let entry = &list[j];
        let ghost done = forwarders@;
        let ghost passed = ignored@;
        proof {
            assert(defs.take(j + 1).drop_last() =~= defs.take(j as int));
            assert(defs.take(j + 1).last() == entry@);
        }
        match parse_forwarder(entry.value.as_str()) {
            Ok(f) => {
                forwarders.push(f);
                assert(crate::config::forwarders(forwarders@) =~= crate::config::forwarders(
                    done,
                ).push(f@));
            },
            Err(m) => {
                let key = entry.key.clone();
                ignored.push((key, m));
                assert(variables(ignored@) =~= variables(passed).push((key@, m@)));
            },
        }
        j = j + 1;
    }
    assert(defs.take(j as int) =~= defs);
    EnvForwarders { forwarders, ignored }
}

/// The forwarders that the texts say, or the reason that the first of them says none.
pub open spec fn parse_all(args: Seq<Seq<char>>) -> Result<Seq<crate::config::Forwarder>, Seq<char>>
    decreases args.len(),
{
    if args.len() == 0 {
        Ok(Seq::empty())
    } else {
        match parse_all(args.drop_last()) {
            Err(m) => Err(m),
            Ok(front) => match crate::config::parse_forwarder_spec(args.last()) {
                Err(m) => Err(m),
                Ok(f) => Ok(front.push(f)),
            },
        }
    }
}

proof fn lemma_parse_error_stays(args: Seq<Seq<char>>, k: int)
    requires
        0 <= k <= args.len(),
        parse_all(args.take(k)) is Err,
    ensures
        parse_all(args) == parse_all(args.take(k)),
    decreases args.len() - k,
{
    if k < args.len() {
        assert(args.take(k + 1).drop_last() =~= args.take(k));
        lemma_parse_error_stays(args, k + 1);
    } else {
        assert(args.take(k) =~= args);
    }
}

fn parse_forwarders(args: &Vec<String>) -> (r: Result<Vec<ForwarderConfig>, String>)
    ensures
        match (r, parse_all(crate::text::texts(args@))) {
            (Ok(list), Ok(all)) => crate::config::forwarders(list@) == all,
            (Err(m), Err(t)) => m@ == t,
            _ => false,
        },
{
    let ghost all = crate::text::texts(args@);
    let mut list: Vec<ForwarderConfig> = Vec::new();
    let mut i: usize = 0;
    assert(all.take(0) =~= Seq::<Seq<char>>::empty());
    assert(crate::config::forwarders(list@) =~= Seq::<crate::config::Forwarder>::empty());
    while i < args.len()
        invariant
            i <= args.len(),
            all == crate::text::texts(args@),
            parse_all(all.take(i as int)) == Ok::<Seq<crate::config::Forwarder>, Seq<char>>(
                crate::config::forwarders(list@),
            ),
        decreases args.len() - i,
    {
        let ghost done = list@;
        proof {
            assert(all.take(i + 1).drop_last() =~= all.take(i as int));
            assert(all.take(i + 1).last() == args@[i as int]@);
        }
        match parse_forwarder(args[i].as_str()) {
            Ok(f) => {
                list.push(f);
                assert(crate::config::forwarders(list@) =~= crate::config::forwarders(done).push(
                    f@,
                ));
            },
            Err(m) => {
                proof {
                    lemma_parse_error_stays(all, i + 1);
                }
                return Err(m);
            },
        }
        i = i + 1;
    }
    assert(all.take(i as int) =~= all);
    Ok(list)
}

/// The forwarders that the command line or, without any there, the configuration file says.
pub open spec fn configured<E>(cli: CliArgs, read: Option<ConfigRead<E>>) -> Result<
    Seq<crate::config::Forwarder>,
    LoadErrorSpec<E>,
> {
    if cli.forwarders@.len() > 0 {
        match parse_all(crate::text::texts(cli.forwarders@)) {
            Ok(list) => Ok(list),
            Err(m) => Err(LoadErrorSpec::Forwarder(m)),
        }
    } else if cli.config_file is Some {
        match read->Some_0 {
            ConfigRead::Unreadable(e) => Err(LoadErrorSpec::File(e)),
            ConfigRead::Unparsable(e) => Err(LoadErrorSpec::File(e)),
            ConfigRead::Parsed(file) => Ok(crate::config::forwarders(file.forwarders@)),
        }
    } else {
        Ok(Seq::empty())
    }
}

/// The forwarders that are picked: those of the environment where it defines any, else those of
/// the command line or the file.
pub open spec fn picked<E>(
    cli: CliArgs,
    read: Option<ConfigRead<E>>,
    vars: Seq<(Seq<char>, Seq<char>)>,
) -> Result<Seq<crate::config::Forwarder>, LoadErrorSpec<E>> {
    let env = accepted(definitions(vars));
    if env.len() > 0 {
        Ok(env)
    } else {
        configured(cli, read)
    }
}

/// The forwarders to run: those that are picked, provided that no two of them listen on the same
/// local endpoint.
pub open spec fn loaded<E>(
    cli: CliArgs,
    read: Option<ConfigRead<E>>,
    vars: Seq<(Seq<char>, Seq<char>)>,
) -> Result<Seq<crate::config::Forwarder>, LoadErrorSpec<E>> {
    match picked(cli, read, vars) {
        Err(e) => Err(e),
        Ok(list) => match crate::config::first_duplicate(list) {
            None => Ok(list),
            Some(j) => Err(
                LoadErrorSpec::Duplicate(crate::config::duplicate_text(list[j].local_addr())),
            ),
        },
    }
}

/// Reads the forwarders of the command line or, without any there, of the configuration file.
fn load_configured<E>(cli: &CliArgs, read: Option<ConfigRead<E>>) -> (r: Result<
    Vec<ForwarderConfig>,
    LoadError<E>,
>)
    requires
        cli.config_file is Some ==> read is Some,
    ensures
        match (r, configured(*cli, read)) {
            (Ok(list), Ok(all)) => crate::config::forwarders(list@) == all,
            (Err(e), Err(f)) => e@ == f,
            _ => false,
        },
{
    if cli.forwarders.len() > 0 {
        return match parse_forwarders(&cli.forwarders) {
            Ok(list) => Ok(list),
            Err(m) => Err(LoadError::Forwarder(m)),
        };
    }
    assert(crate::config::forwarders(Seq::<ForwarderConfig>::empty()) =~= Seq::<
        crate::config::Forwarder,
    >::empty());
    if cli.config_file.is_none() {
        return Ok(Vec::new());
    }
    match read {
        Some(ConfigRead::Unreadable(e)) => Err(LoadError::File(e)),
        Some(ConfigRead::Unparsable(e)) => Err(LoadError::File(e)),
        Some(ConfigRead::Parsed(file)) => Ok(file.forwarders),
        None => Ok(Vec::new()),
    }
}

/// Loads the forwarders to run.
///
/// `read` is what came of reading the configuration file, where the command line names one;
/// `vars` are the environment variables. Precedence: environment, command line, file.
/// Where the environment defines forwarders they replace all other sources, which then cannot
/// fail either; where the command line gives any, they replace the file.
pub fn load_forwarders<E>(
    cli: &CliArgs,
    read: Option<ConfigRead<E>>,
    vars: &[(String, String)],
) -> (r: Result<Vec<ForwarderConfig>, LoadError<E>>)
    requires
        cli.config_file is Some ==> read is Some,
    ensures
        match (r, loaded(*cli, read, variables(vars@))) {
            (Ok(list), Ok(all)) => crate::config::forwarders(list@) == all,
            (Err(e), Err(f)) => e@ == f,
            _ => false,
        },
{
    let env = load_env_forwarders(vars);
    let chosen = if env.forwarders.len() > 0 {
        env.forwarders
    } else {
        match load_configured(cli, read) {
            Ok(list) => list,
            Err(e) => {
                return Err(e);
            },
        }
    };
    match validate_no_duplicates(chosen.as_slice()) {
        Ok(()) => Ok(chosen),
        Err(m) => Err(LoadError::Duplicate(m)),
    }
}

/// The settings that the configuration file says, or the defaults where there is none.
pub open spec fn file_settings<E>(cli: CliArgs, read: Option<ConfigRead<E>>) -> Result<
    crate::settings::SettingsSpec,
    E,
> {
    if cli.config_file is Some {
        match read->Some_0 {
            ConfigRead::Unreadable(_) => Ok(crate::settings::default_settings()),
            ConfigRead::Unparsable(e) => Err(e),
            ConfigRead::Parsed(file) => Ok(file.settings@),
        }
    } else {
        Ok(crate::settings::default_settings())
    }
}

/// `value` where it is given, else `otherwise`.
pub open spec fn given_or<T>(value: Option<T>, otherwise: T) -> T {
    match value {
        Some(v) => v,
        None => otherwise,
    }
}

/// The settings `s` with those replaced that the command line gives.
pub open spec fn overridden(
    s: crate::settings::SettingsSpec,
    cli: CliArgs,
) -> crate::settings::SettingsSpec {
    crate::settings::SettingsSpec {
        metrics_addr: if cli.metrics_addr is Some {
            crate::settings::optional_text(cli.metrics_addr)
        } else {
            s.metrics_addr
        },
        report_interval_secs: given_or(cli.report_interval_secs, s.report_interval_secs),
        sample_interval_secs: given_or(cli.sample_interval_secs, s.sample_interval_secs),
        buffer_bytes: given_or(cli.buffer_bytes, s.buffer_bytes),
        socket_buffer_bytes: if cli.socket_buffer_bytes is Some {
            cli.socket_buffer_bytes
        } else {
            s.socket_buffer_bytes
        },
        use_splice: cli.use_splice || s.use_splice,
    }
}

/// Loads the runtime settings: those of the configuration file, where the command line names
/// one, with the flags of the command line on top. A file that cannot be read gives the
/// defaults; one that is no configuration is an error.
pub fn load_settings<E>(cli: &CliArgs, read: Option<ConfigRead<E>>) -> (r: Result<Settings, E>)
    requires
        cli.config_file is Some ==> read is Some,
    ensures
        match (r, file_settings(*cli, read)) {
            (Ok(s), Ok(base)) => s@ == overridden(base, *cli),
            (Err(e), Err(f)) => e == f,
            _ => false,
        },
        r is Err <==> cli.config_file is Some && read->Some_0 is Unparsable,
        r is Ok ==> {
            let s = r->Ok_0;
            &&& cli.metrics_addr matches Some(a) ==> s.metrics_addr is Some
                && s.metrics_addr->Some_0@ == a@
            &&& cli.report_interval_secs matches Some(v) ==> s.report_interval_secs == v
            &&& cli.sample_interval_secs matches Some(v) ==> s.sample_interval_secs == v
            &&& cli.buffer_bytes matches Some(v) ==> s.buffer_bytes == v
            &&& cli.socket_buffer_bytes matches Some(v) ==> s.socket_buffer_bytes == Some(v)
            &&& cli.use_splice ==> s.use_splice
        },
{
    let mut settings = if cli.config_file.is_some() {
        match read {
            Some(ConfigRead::Parsed(file)) => file.settings,
            Some(ConfigRead::Unparsable(e)) => {
                return Err(e);
            },
            _ => Settings::default(),
        }
    } else {
        Settings::default()
    };
    if let Some(addr) = &cli.metrics_addr {
        settings.metrics_addr = Some(addr.clone());
    }
    if let Some(v) = cli.report_interval_secs {
        settings.report_interval_secs = v;
    }
    if let Some(v) = cli.sample_interval_secs {
        settings.sample_interval_secs = v;
    }
    if let Some(v) = cli.buffer_bytes {
        settings.buffer_bytes = v;
    }
    if let Some(v) = cli.socket_buffer_bytes {
        settings.socket_buffer_bytes = Some(v);
    }
    if cli.use_splice {
        settings.use_splice = true;
    }
    Ok(settings)
}

/// The settings of a configuration file alone, for a reload: the defaults where the file gave
/// no configuration. Flags of the command line are not applied again.
pub fn load_settings_from_file<E>(read: &ConfigRead<E>) -> (r: Settings)
    ensures
        r@ == (match *read {
            ConfigRead::Parsed(file) => file.settings@,
            _ => crate::settings::default_settings(),
        }),
{
    match read {
        ConfigRead::Parsed(file) => file.settings.clone(),
        _ => Settings::default(),
    }
}

/// The variables that define a forwarder, in the order given.
pub open spec fn defining(vars: Seq<(Seq<char>, Seq<char>)>) -> Seq<Definition>
    decreases vars.len(),
{
    if vars.len() == 0 {
        Seq::empty()
    } else {
        let (key, value) = vars.last();
        match variable_index(key) {
            Some(index) => defining(vars.drop_last()).push(Definition { index, key, value }),
            None => defining(vars.drop_last()),
        }
    }
}

/// Whether the indices never fall.
pub open spec fn ordered(list: Seq<Definition>) -> bool {
    forall|i: int, j: int|
        0 <= i <= j < list.len() ==> (#[trigger] list[i]).index <= (#[trigger] list[j]).index
}

/// The definitions of index `k`, in order.
pub open spec fn of_index(list: Seq<Definition>, k: nat) -> Seq<Definition> {
    list.filter(|d: Definition| d.index == k)
}

proof fn lemma_of_index_push(list: Seq<Definition>, d: Definition, k: nat)
    ensures
        of_index(list.push(d), k) == (if d.index == k {
            of_index(list, k).push(d)
        } else {
            of_index(list, k)
        }),
{
    reveal(Seq::filter);
    assert(list.push(d).drop_last() =~= list);
}

proof fn lemma_insert_by_index(list: Seq<Definition>, d: Definition, k: nat)
    requires
        ordered(list),
    ensures
        ordered(insert_by_index(list, d)),
        of_index(insert_by_index(list, d), k) == of_index(list.push(d), k),
        insert_by_index(list, d).len() == list.len() + 1,
        forall|i: int|
            0 <= i <= list.len() ==> (#[trigger] insert_by_index(list, d)[i]).index <= d.index || (
            list.len() > 0 && insert_by_index(list, d)[i].index <= list.last().index),
    decreases list.len(),
{
    if list.len() > 0 && list.last().index > d.index {
        let front = list.drop_last();
        lemma_insert_by_index(front, d, k);
        lemma_of_index_push(front, d, k);
        lemma_of_index_push(insert_by_index(front, d), list.last(), k);
        lemma_of_index_push(front, list.last(), k);
        lemma_of_index_push(list, d, k);
        assert(front.push(list.last()) =~= list);
        if front.len() > 0 {
            assert(front.last() == list[front.len() - 1]);
            assert(front.last().index <= list.last().index);
        }
    }
}

/// The forwarders of the environment come by the number of their variable, and those of equal
/// number in the order in which the environment gives them; none is lost and none is added.
pub proof fn law_environment_order(vars: Seq<(Seq<char>, Seq<char>)>)
    ensures
        ordered(definitions(vars)),
        forall|k: nat| of_index(definitions(vars), k) == #[trigger] of_index(defining(vars), k),
        definitions(vars).len() == defining(vars).len(),
    decreases vars.len(),
{
    if vars.len() > 0 {
        let front = vars.drop_last();
        law_environment_order(front);
        let (key, value) = vars.last();
        if let Some(index) = variable_index(key) {
            let d = Definition { index, key, value };
            lemma_insert_by_index(definitions(front), d, 0);
            assert forall|k: nat| of_index(definitions(vars), k) == #[trigger] of_index(
                defining(vars),
                k,
            ) by {
                lemma_insert_by_index(definitions(front), d, k);
                lemma_of_index_push(definitions(front), d, k);
                lemma_of_index_push(defining(front), d, k);
                assert(of_index(definitions(front), k) == of_index(defining(front), k));
            }
        }
    }
}

/// Where the environment defines forwarders, they replace those of the command line and of the
/// file: whatever these hold, and be it nothing that loads, the outcome is the environment's alone.
pub proof fn law_environment_wins<E>(
    cli: CliArgs,
    read: Option<ConfigRead<E>>,
    vars: Seq<(Seq<char>, Seq<char>)>,
)
    requires
        accepted(definitions(vars)).len() > 0,
    ensures
        loaded(cli, read, vars) == (match crate::config::first_duplicate(
            accepted(definitions(vars)),
        ) {
            None => Ok::<Seq<crate::config::Forwarder>, LoadErrorSpec<E>>(
                accepted(definitions(vars)),
            ),
            Some(j) => Err(
                LoadErrorSpec::Duplicate(
                    crate::config::duplicate_text(accepted(definitions(vars))[j].local_addr()),
                ),
            ),
        }),
{
}

/// Forwarders on the command line replace those of the file: the file makes no difference.
pub proof fn law_command_line_beats_file<E>(
    cli: CliArgs,
    read1: Option<ConfigRead<E>>,
    read2: Option<ConfigRead<E>>,
    vars: Seq<(Seq<char>, Seq<char>)>,
)
    requires
        cli.forwarders@.len() > 0,
    ensures
        loaded(cli, read1, vars) == loaded(cli, read2, vars),
{
}

/// With nothing in the environment and nothing on the command line, the forwarders are those of
/// the file; without a file there are none.
pub proof fn law_file_is_last<E>(
    cli: CliArgs,
    file: ConfigFile,
    vars: Seq<(Seq<char>, Seq<char>)>,
)
    requires
        cli.forwarders@.len() == 0,
        accepted(definitions(vars)).len() == 0,
        crate::config::local_addrs_distinct(crate::config::forwarders(file.forwarders@)),
    ensures
        loaded::<E>(cli, Some(ConfigRead::Parsed(file)), vars) == Ok::<
            Seq<crate::config::Forwarder>,
            LoadErrorSpec<E>,
        >(
            if cli.config_file is Some {
                crate::config::forwarders(file.forwarders@)
            } else {
                Seq::empty()
            },
        ),
{
    crate::config::law_duplicates(crate::config::forwarders(file.forwarders@));
}

/// Forwarders that load never share a local endpoint.
pub proof fn law_loaded_distinct<E>(
    cli: CliArgs,
    read: Option<ConfigRead<E>>,
    vars: Seq<(Seq<char>, Seq<char>)>,
)
    ensures
        loaded(cli, read, vars) matches Ok(list) ==> crate::config::local_addrs_distinct(list),
{
    if let Ok(list) = loaded(cli, read, vars) {
        crate::config::law_duplicates(list);
    }
}

/// Flags that are not given leave the settings of the file, or the defaults, as they are.
pub proof fn law_flags_not_given(s: crate::settings::SettingsSpec, cli: CliArgs)
    requires
        cli.metrics_addr is None,
        cli.report_interval_secs is None,
        cli.sample_interval_secs is None,
        cli.buffer_bytes is None,
        cli.socket_buffer_bytes is None,
        !cli.use_splice,
    ensures
        overridden(s, cli) == s,
{
}

/// The text shown when there is nothing to forward.
pub open spec fn usage_text() -> Seq<char> {
    "No forwarders configured.\nUsage: rfw [OPTIONS] [FORWARDERS...]\nExamples:\nrfw localhost:8080:172.16.0.5:80\nrfw -f forwarders.yml\nrfw localhost:8080:example.com:80 localhost:8081:other.com:443\n\nEnvironment: RFW_FORWARDER_1, RFW_FORWARDER_2, ... override everything.\n\nForwarder format: local_host:local_port:remote_host:remote_port"@
}

/// Checks that there is something to forward; the error tells how to say what.
pub fn require_forwarders(list: &[ForwarderConfig]) -> (r: Result<(), String>)
    ensures
        r is Ok <==> list@.len() > 0,
        r is Err ==> r->Err_0@ == usage_text(),
{
    if list.len() == 0 {
        Err(
            String::from_str(
                "No forwarders configured.\nUsage: rfw [OPTIONS] [FORWARDERS...]\nExamples:\nrfw localhost:8080:172.16.0.5:80\nrfw -f forwarders.yml\nrfw localhost:8080:example.com:80 localhost:8081:other.com:443\n\nEnvironment: RFW_FORWARDER_1, RFW_FORWARDER_2, ... override everything.\n\nForwarder format: local_host:local_port:remote_host:remote_port",
            ),
        )
    } else {
        Ok(())
    }
}

/// When every text says a forwarder, the list has one forwarder for each text, in the same order,
/// and each is the one that its text says.
pub proof fn law_every_text_gives_its_forwarder(args: Seq<Seq<char>>)
    requires
        forall|i: int|
            0 <= i < args.len() ==> crate::config::parse_forwarder_spec(#[trigger] args[i]) is Ok,
    ensures
        parse_all(args) is Ok,
        parse_all(args)->Ok_0.len() == args.len(),
        forall|i: int|
            0 <= i < args.len() ==> #[trigger] parse_all(args)->Ok_0[i]
                == crate::config::parse_forwarder_spec(args[i])->Ok_0,
    decreases args.len(),
{
    if args.len() > 0 {
        let front = args.drop_last();
        assert forall|i: int| 0 <= i < front.len() implies crate::config::parse_forwarder_spec(
            #[trigger] front[i],
        ) is Ok by {
            assert(crate::config::parse_forwarder_spec(args[i]) is Ok);
        }
        law_every_text_gives_its_forwarder(front);
        assert(crate::config::parse_forwarder_spec(args[args.len() - 1]) is Ok);
        assert forall|i: int| 0 <= i < args.len() implies #[trigger] parse_all(args)->Ok_0[i]
            == crate::config::parse_forwarder_spec(args[i])->Ok_0 by {
            if i < front.len() {
                assert(front[i] == args[i]);
                assert(parse_all(front)->Ok_0[i] == crate::config::parse_forwarder_spec(
                    front[i],
                )->Ok_0);
            }
        }
    }
}

/// When some text says no forwarder, the error is that of the first such text.
pub proof fn law_the_first_bad_text_is_the_error(args: Seq<Seq<char>>, k: int)
    requires
        0 <= k < args.len(),
        crate::config::parse_forwarder_spec(args[k]) is Err,
        forall|i: int|
            0 <= i < k ==> crate::config::parse_forwarder_spec(#[trigger] args[i]) is Ok,
    ensures
        parse_all(args) is Err,
        parse_all(args)->Err_0 == crate::config::parse_forwarder_spec(args[k])->Err_0,
{
    let front = args.take(k);
    assert forall|i: int| 0 <= i < front.len() implies crate::config::parse_forwarder_spec(
        #[trigger] front[i],
    ) is Ok by {
        assert(crate::config::parse_forwarder_spec(args[i]) is Ok);
    }
    law_every_text_gives_its_forwarder(front);
    assert(args.take(k + 1).drop_last() =~= front);
    assert(args.take(k + 1).last() == args[k]);
    lemma_parse_error_stays(args, k + 1);
}

/// With no forwarder in the environment, forwarders on the command line that are all well formed
/// and clash with none are loaded: each of them, in order, whatever the file says.
pub proof fn law_the_command_line_is_loaded<E>(
    cli: CliArgs,
    read: Option<ConfigRead<E>>,
    vars: Seq<(Seq<char>, Seq<char>)>,
    list: Seq<crate::config::Forwarder>,
)
    requires
        accepted(definitions(vars)).len() == 0,
        cli.forwarders@.len() > 0,
        list.len() == cli.forwarders@.len(),
        forall|i: int|
            0 <= i < list.len() ==> crate::config::parse_forwarder_spec(
                (#[trigger] cli.forwarders@[i])@,
            ) == Ok::<crate::config::Forwarder, Seq<char>>(list[i]),
        forall|i: int, j: int|
            0 <= i < j < list.len() ==> (#[trigger] list[i]).local_host != (
            #[trigger] list[j]).local_host || list[i].local_port != list[j].local_port,
    ensures
        loaded(cli, read, vars) == Ok::<Seq<crate::config::Forwarder>, LoadErrorSpec<E>>(list),
{
    let args = crate::text::texts(cli.forwarders@);
    assert forall|i: int| 0 <= i < args.len() implies crate::config::parse_forwarder_spec(
        #[trigger] args[i],
    ) is Ok by {
        assert(args[i] == cli.forwarders@[i]@);
    }
    law_every_text_gives_its_forwarder(args);
    assert(parse_all(args)->Ok_0 =~= list) by {
        assert forall|i: int| 0 <= i < list.len() implies #[trigger] parse_all(args)->Ok_0[i]
            == list[i] by {
            assert(args[i] == cli.forwarders@[i]@);
        }
    }
    crate::config::law_clashes_are_equal_local_endpoints(list);
}

/// With no forwarder in the environment, a text on the command line that is no forwarder is an
/// error: that of the first such text.
pub proof fn law_a_bad_argument_is_an_error<E>(
    cli: CliArgs,
    read: Option<ConfigRead<E>>,
    vars: Seq<(Seq<char>, Seq<char>)>,
    k: int,
)
    requires
        accepted(definitions(vars)).len() == 0,
        0 <= k < cli.forwarders@.len(),
        crate::config::parse_forwarder_spec(cli.forwarders@[k]@) is Err,
        forall|i: int|
            0 <= i < k ==> crate::config::parse_forwarder_spec(
                (#[trigger] cli.forwarders@[i])@,
            ) is Ok,
    ensures
        loaded(cli, read, vars) == Err::<Seq<crate::config::Forwarder>, LoadErrorSpec<E>>(
            LoadErrorSpec::Forwarder(
                crate::config::parse_forwarder_spec(cli.forwarders@[k]@)->Err_0,
            ),
        ),
{
    let args = crate::text::texts(cli.forwarders@);
    assert(args[k] == cli.forwarders@[k]@);
    assert forall|i: int| 0 <= i < k implies crate::config::parse_forwarder_spec(
        #[trigger] args[i],
    ) is Ok by {
        assert(args[i] == cli.forwarders@[i]@);
    }
    law_the_first_bad_text_is_the_error(args, k);
}

/// With no forwarder in the environment or on the command line, a file that cannot be read or
/// parsed is an error, and that of the file; one that is parsed gives its list, unless two of its
/// forwarders clash.
pub proof fn law_the_file_is_loaded<E>(
    cli: CliArgs,
    e: E,
    file: ConfigFile,
    vars: Seq<(Seq<char>, Seq<char>)>,
)
    requires
        accepted(definitions(vars)).len() == 0,
        cli.forwarders@.len() == 0,
        cli.config_file is Some,
    ensures
        loaded(cli, Some(ConfigRead::Unreadable(e)), vars) == Err::<
            Seq<crate::config::Forwarder>,
            LoadErrorSpec<E>,
        >(LoadErrorSpec::File(e)),
        loaded(cli, Some(ConfigRead::Unparsable(e)), vars) == Err::<
            Seq<crate::config::Forwarder>,
            LoadErrorSpec<E>,
        >(LoadErrorSpec::File(e)),
        ({
            let list = crate::config::forwarders(file.forwarders@);
            let outcome = loaded::<E>(cli, Some(ConfigRead::Parsed(file)), vars);
            &&& (forall|i: int, j: int|
                0 <= i < j < list.len() ==> (#[trigger] list[i]).local_host != (
                #[trigger] list[j]).local_host || list[i].local_port != list[j].local_port)
                ==> outcome == Ok::<Seq<crate::config::Forwarder>, LoadErrorSpec<E>>(list)
            &&& (exists|i: int, j: int|
                0 <= i < j < list.len() && (#[trigger] list[i]).local_host == (
                #[trigger] list[j]).local_host && list[i].local_port == list[j].local_port)
                ==> outcome is Err && outcome->Err_0 is Duplicate
        }),
{
    crate::config::law_clashes_are_equal_local_endpoints(
        crate::config::forwarders(file.forwarders@),
    );
}

/// The variables of the environment that define forwarders that are well formed replace all else:
/// they are loaded in the order of their numbers, unless two of them clash.
pub proof fn law_the_environment_is_loaded<E>(
    cli: CliArgs,
    read: Option<ConfigRead<E>>,
    vars: Seq<(Seq<char>, Seq<char>)>,
    list: Seq<crate::config::Forwarder>,
)
    requires
        list.len() == definitions(vars).len(),
        list.len() > 0,
        forall|i: int|
            0 <= i < list.len() ==> crate::config::parse_forwarder_spec(
                (#[trigger] definitions(vars)[i]).value,
            ) == Ok::<crate::config::Forwarder, Seq<char>>(list[i]),
        forall|i: int, j: int|
            0 <= i < j < list.len() ==> (#[trigger] list[i]).local_host != (
            #[trigger] list[j]).local_host || list[i].local_port != list[j].local_port,
    ensures
        loaded(cli, read, vars) == Ok::<Seq<crate::config::Forwarder>, LoadErrorSpec<E>>(list),
{
    let defs = definitions(vars);
    lemma_all_accepted(defs, list);
    crate::config::law_clashes_are_equal_local_endpoints(list);
}

proof fn lemma_all_accepted(defs: Seq<Definition>, list: Seq<crate::config::Forwarder>)
    requires
        list.len() == defs.len(),
        forall|i: int|
            0 <= i < list.len() ==> crate::config::parse_forwarder_spec(
                (#[trigger] defs[i]).value,
            ) == Ok::<crate::config::Forwarder, Seq<char>>(list[i]),
    ensures
        accepted(defs) == list,
    decreases defs.len(),
{
    if defs.len() > 0 {
        let front = defs.drop_last();
        assert forall|i: int| 0 <= i < front.len() implies crate::config::parse_forwarder_spec(
            (#[trigger] front[i]).value,
        ) == Ok::<crate::config::Forwarder, Seq<char>>(list.drop_last()[i]) by {
            assert(crate::config::parse_forwarder_spec(defs[i].value) == Ok::<
                crate::config::Forwarder,
                Seq<char>,
            >(list[i]));
        }
        lemma_all_accepted(front, list.drop_last());
        let last = defs[defs.len() - 1];
        assert(crate::config::parse_forwarder_spec(last.value) == Ok::<
            crate::config::Forwarder,
            Seq<char>,
        >(list[list.len() - 1]));
        assert(list.drop_last().push(list.last()) =~= list);
    } else {
        assert(list =~= accepted(defs));
    }
}

/// Of the definitions, those that are well formed are taken, each as what it says, and the others
/// are passed over, each with its reason; both in order, and none twice.
pub proof fn law_accepted_and_rejected(list: Seq<Definition>)
    ensures
        accepted(list) == list.filter(
            |d: Definition| crate::config::parse_forwarder_spec(d.value) is Ok,
        ).map_values(|d: Definition| crate::config::parse_forwarder_spec(d.value)->Ok_0),
        rejected(list) == list.filter(
            |d: Definition| crate::config::parse_forwarder_spec(d.value) is Err,
        ).map_values(
            |d: Definition| (d.key, crate::config::parse_forwarder_spec(d.value)->Err_0),
        ),
        accepted(list).len() + rejected(list).len() == list.len(),
    decreases list.len(),
{
    reveal(Seq::filter);
    let good = |d: Definition| crate::config::parse_forwarder_spec(d.value) is Ok;
    let bad = |d: Definition| crate::config::parse_forwarder_spec(d.value) is Err;
    let says = |d: Definition| crate::config::parse_forwarder_spec(d.value)->Ok_0;
    let lacks = |d: Definition| (d.key, crate::config::parse_forwarder_spec(d.value)->Err_0);
    if list.len() > 0 {
        let front = list.drop_last();
        law_accepted_and_rejected(front);
        if good(list.last()) {
            assert(list.filter(good).map_values(says) =~= front.filter(good).map_values(says).push(
                says(list.last()),
            ));
        } else {
            assert(bad(list.last()));
            assert(list.filter(bad).map_values(lacks) =~= front.filter(bad).map_values(lacks).push(
                lacks(list.last()),
            ));
        }
    } else {
        assert(list.filter(good).map_values(says) =~= accepted(list));
        assert(list.filter(bad).map_values(lacks) =~= rejected(list));
    }
}

/// A variable counts if and only if its name is `RFW_FORWARDER_` and a number; the number is the
/// one that is written there.
pub proof fn law_variable_names(key: Seq<char>, suffix: Seq<char>)
    ensures
        variable_index("RFW_FORWARDER_"@ + suffix) == (match crate::text::number(
            suffix,
            usize::MAX as nat,
        ) {
            Ok(n) => Some(n),
            Err(_) => None,
        }),
        variable_index(key) is Some ==> key == "RFW_FORWARDER_"@ + key.skip(
            "RFW_FORWARDER_"@.len() as int,
        ),
{
    let prefix = "RFW_FORWARDER_"@;
    let whole = prefix + suffix;
    assert(whole.take(prefix.len() as int) =~= prefix);
    assert(whole.skip(prefix.len() as int) =~= suffix);
    if variable_index(key) is Some {
        assert(key =~= prefix + key.skip(prefix.len() as int));
    }
}

/// The definitions are all the variables that count, each with its number, name and value, none
/// twice, by rising number; those of one number in the order in which they are given.
pub proof fn law_definitions_are_the_variables(vars: Seq<(Seq<char>, Seq<char>)>, k: nat)
    ensures
        definitions(vars).len() == vars.filter(
            |v: (Seq<char>, Seq<char>)| variable_index(v.0) is Some,
        ).len(),
        definitions(vars).filter(|d: Definition| d.index == k) == vars.filter(
            |v: (Seq<char>, Seq<char>)| variable_index(v.0) == Some(k),
        ).map_values(
            |v: (Seq<char>, Seq<char>)| Definition { index: k, key: v.0, value: v.1 },
        ),
        forall|i: int, j: int|
            0 <= i <= j < definitions(vars).len() ==> (#[trigger] definitions(vars)[i]).index <= (
            #[trigger] definitions(vars)[j]).index,
{
    law_environment_order(vars);
    lemma_defining(vars, k);
    assert(of_index(definitions(vars), k) == of_index(defining(vars), k));
    let defs = definitions(vars);
    assert(ordered(defs));
}

proof fn lemma_defining(vars: Seq<(Seq<char>, Seq<char>)>, k: nat)
    ensures
        defining(vars).len() == vars.filter(
            |v: (Seq<char>, Seq<char>)| variable_index(v.0) is Some,
        ).len(),
        of_index(defining(vars), k) == vars.filter(
            |v: (Seq<char>, Seq<char>)| variable_index(v.0) == Some(k),
        ).map_values(
            |v: (Seq<char>, Seq<char>)| Definition { index: k, key: v.0, value: v.1 },
        ),
    decreases vars.len(),
{
    reveal(Seq::filter);
    let counts = |v: (Seq<char>, Seq<char>)| variable_index(v.0) is Some;
    let of_k = |v: (Seq<char>, Seq<char>)| variable_index(v.0) == Some(k);
    let made = |v: (Seq<char>, Seq<char>)| Definition { index: k, key: v.0, value: v.1 };
    if vars.len() > 0 {
        let front = vars.drop_last();
        lemma_defining(front, k);
        let (key, value) = vars.last();
        if let Some(index) = variable_index(key) {
            lemma_of_index_push(defining(front), Definition { index, key, value }, k);
            if index == k {
                assert(vars.filter(of_k).map_values(made) =~= front.filter(of_k).map_values(
                    made,
                ).push(made(vars.last())));
            }
        }
    } else {
        assert(of_index(defining(vars), k) =~= vars.filter(of_k).map_values(made));
    }
}

/// A list of variables holds the name and the value of each, in order.
pub proof fn law_variables(vars: Seq<(String, String)>, i: int)
    requires
        0 <= i < vars.len(),
    ensures
        variables(vars).len() == vars.len(),
        variables(vars)[i].0 == vars[i].0@,
        variables(vars)[i].1 == vars[i].1@,
{
}

/// The view of a load error shows which it is and what it says.
pub proof fn law_load_errors<E>(text: String, e: E)
    ensures
        (LoadError::<E>::Forwarder(text))@ == LoadErrorSpec::<E>::Forwarder(text@),
        (LoadError::<E>::Duplicate(text))@ == LoadErrorSpec::<E>::Duplicate(text@),
        (LoadError::<E>::File(e))@ == LoadErrorSpec::<E>::File(e),
{
}

/// Each flag that is given determines its setting, whatever the file says; each that is not given
/// leaves the setting of the file. No flag has a say in another setting.
pub proof fn law_flags_determine_their_settings(s: crate::settings::SettingsSpec, cli: CliArgs)
    ensures
        cli.metrics_addr matches Some(a) ==> overridden(s, cli).metrics_addr == Some(a@),
        cli.metrics_addr is None ==> overridden(s, cli).metrics_addr == s.metrics_addr,
        cli.report_interval_secs matches Some(v) ==> overridden(s, cli).report_interval_secs == v,
        cli.report_interval_secs is None ==> overridden(s, cli).report_interval_secs
            == s.report_interval_secs,
        cli.sample_interval_secs matches Some(v) ==> overridden(s, cli).sample_interval_secs == v,
        cli.sample_interval_secs is None ==> overridden(s, cli).sample_interval_secs
            == s.sample_interval_secs,
        cli.buffer_bytes matches Some(v) ==> overridden(s, cli).buffer_bytes == v,
        cli.buffer_bytes is None ==> overridden(s, cli).buffer_bytes == s.buffer_bytes,
        cli.socket_buffer_bytes matches Some(v) ==> overridden(s, cli).socket_buffer_bytes
            == Some(v),
        cli.socket_buffer_bytes is None ==> overridden(s, cli).socket_buffer_bytes
            == s.socket_buffer_bytes,
        cli.use_splice ==> overridden(s, cli).use_splice,
        !cli.use_splice ==> overridden(s, cli).use_splice == s.use_splice,
{
}

/// With every flag given, two files, or a file and none, give the same settings.
pub proof fn law_flags_beat_every_file(
    s: crate::settings::SettingsSpec,
    t: crate::settings::SettingsSpec,
    cli: CliArgs,
)
    requires
        cli.metrics_addr is Some,
        cli.report_interval_secs is Some,
        cli.sample_interval_secs is Some,
        cli.buffer_bytes is Some,
        cli.socket_buffer_bytes is Some,
        cli.use_splice,
    ensures
        overridden(s, cli) == overridden(t, cli),
{
}

/// The settings below the flags: those of a file that is parsed; the defaults without a file and
/// for one that cannot be read; none, but its error, for a file that cannot be parsed.
pub proof fn law_settings_below_the_flags<E>(
    cli: CliArgs,
    read: Option<ConfigRead<E>>,
    e: E,
    file: ConfigFile,
)
    ensures
        cli.config_file is None ==> file_settings(cli, read) == Ok::<
            crate::settings::SettingsSpec,
            E,
        >(
            crate::settings::SettingsSpec {
                metrics_addr: None,
                report_interval_secs: 60,
                sample_interval_secs: 1,
                buffer_bytes: 65536,
                socket_buffer_bytes: None,
                use_splice: false,
            },
        ),
        cli.config_file is Some ==> {
            &&& file_settings(cli, Some(ConfigRead::Unreadable(e))) == file_settings(
                CliArgs { config_file: None, ..cli },
                read,
            )
            &&& file_settings(cli, Some(ConfigRead::Unparsable(e))) == Err::<
                crate::settings::SettingsSpec,
                E,
            >(e)
            &&& file_settings::<E>(cli, Some(ConfigRead::Parsed(file))) == Ok::<
                crate::settings::SettingsSpec,
                E,
            >(file.settings@)
        },
{
}

} // verus!
