//! What the relay is configured to do.

use crate::text::{dec, decimal, text_eq, to_upper, uppercase};
use vstd::prelude::*;
use vstd::string::*;

verus! {

/// The configuration of the relay. The channels stand in the order of their names.
#[derive(Debug, Clone)]
pub struct RelayConfig {
    pub listen: String,
    pub metrics_path: String,
    pub admin_token_env: String,
    pub max_body_bytes: usize,
    pub channels: Vec<(String, ChannelConfig)>,
    pub routes: Vec<RouteConfig>,
    pub capture: CaptureConfig,
}

/// A channel: how many events it keeps for slow subscribers, and how often it shows that it
/// is alive.
#[derive(Debug, Clone, Copy)]
pub struct ChannelConfig {
    pub capacity: usize,
    pub keep_alive_seconds: u64,
}

/// A route that takes requests.
#[derive(Debug, Clone)]
pub struct RouteConfig {
    pub path: String,
    pub methods: Vec<String>,
    pub auth: AuthMode,
    pub max_body_bytes: Option<usize>,
    pub emit: Option<EmitConfig>,
    pub response: Option<ResponseConfig>,
}

/// What a route asks of a request.
#[derive(Debug, Clone, Copy, PartialEq, Eq, Structural)]
pub enum AuthMode {
    Open,
    Bearer,
    LoopbackOrBearer,
}

/// The event that a route makes of a request.
#[derive(Debug, Clone)]
pub struct EmitConfig {
    pub channel: String,
    pub payload: String,
}

/// The answer of a route.
#[derive(Debug, Clone)]
pub struct ResponseConfig {
    pub status: u16,
    pub headers: Vec<(String, String)>,
    pub body: Option<String>,
}

/// How events are captured on disk.
#[derive(Debug, Clone)]
pub struct CaptureConfig {
    pub enabled: bool,
    pub dir: String,
    pub rotate_bytes: u64,
    pub gzip_after_rotate: bool,
    pub max_total_bytes: u64,
    pub fsync: FsyncPolicy,
    pub file_mode: u32,
}

/// When captured events are forced to disk.
#[derive(Debug, Clone, Copy, PartialEq, Eq, Structural)]
pub enum FsyncPolicy {
    PerRotation,
    PerEvent,
    Never,
}

impl Default for AuthMode {
    fn default() -> (r: Self)
        ensures
            r is Open,
    {
        AuthMode::Open
    }
}

impl Default for FsyncPolicy {
    fn default() -> (r: Self)
        ensures
            r is PerRotation,
    {
        FsyncPolicy::PerRotation
    }
}

impl Default for CaptureConfig {
    /// No capture: where the configuration has no section on it.
    fn default() -> (r: Self)
        ensures
            !r.enabled,
            r.dir@ == ""@,
            r.rotate_bytes == 0,
            !r.gzip_after_rotate,
            r.max_total_bytes == 0,
            r.fsync is PerRotation,
            r.file_mode == 0,
    {
        CaptureConfig {
            enabled: false,
            dir: "".to_owned(),
            rotate_bytes: 0,
            gzip_after_rotate: false,
            max_total_bytes: 0,
            fsync: FsyncPolicy::PerRotation,
            file_mode: 0,
        }
    }
}

/// Where metrics are served, unless it is said otherwise.
pub fn default_metrics_path() -> (r: String)
    ensures
        r@ == "/metrics"@,
{
    "/metrics".to_owned()
}

/// The variable that holds the token, unless it is said otherwise.
pub fn default_admin_token_env() -> (r: String)
    ensures
        r@ == "BITDEX_ADMIN_TOKEN"@,
{
    "BITDEX_ADMIN_TOKEN".to_owned()
}

/// The longest body, unless it is said otherwise: four mebibytes.
pub fn default_max_body_bytes() -> (r: usize)
    ensures
        r == 4 * 1024 * 1024,
{
    4 * 1024 * 1024
}

/// The seconds between signs of life, unless it is said otherwise.
pub fn default_keep_alive() -> (r: u64)
    ensures
        r == 15,
{
    15
}

/// The methods of a route, unless it is said otherwise.
pub fn default_methods() -> (r: Vec<String>)
    ensures
        r@.len() == 1,
        r@[0]@ == "POST"@,
{
    let mut r: Vec<String> = Vec::new();
    r.push("POST".to_owned());
    r
}

/// The status of an answer, unless it is said otherwise.
pub fn default_status() -> (r: u16)
    ensures
        r == 200,
{
    200
}

/// Where captures go, unless it is said otherwise.
pub fn default_capture_dir() -> (r: String)
    ensures
        r@ == "/var/lib/bitdex-relay"@,
{
    "/var/lib/bitdex-relay".to_owned()
}

/// How long a capture file grows, unless it is said otherwise: 256 mebibytes.
pub fn default_rotate_bytes() -> (r: u64)
    ensures
        r == 256 * 1024 * 1024,
{
    256 * 1024 * 1024
}

/// Whether full capture files are compressed, unless it is said otherwise.
pub fn default_gzip_after_rotate() -> (r: bool)
    ensures
        r,
{
    true
}

/// How much all captures may take, unless it is said otherwise: 20 gibibytes.
pub fn default_max_total_bytes() -> (r: u64)
    ensures
        r == 20 * 1024 * 1024 * 1024,
{
    20 * 1024 * 1024 * 1024
}

/// The permissions of capture files, unless it is said otherwise.
pub fn default_file_mode() -> (r: u32)
    ensures
        r == 0o640,
{
    0o640
}

/// What is wrong with a configuration.
#[derive(Debug)]
pub enum ConfigError {
    /// The file could not be read: its path and why.
    Read(String, String),
    /// The file is no configuration: its path and why.
    Parse(String, String),
    /// The configuration contradicts itself.
    Validation(String),
}

impl ConfigError {
    /// How the error is written.
    pub open spec fn text(self) -> Seq<char> {
        match self {
            ConfigError::Read(path, why) => "read "@ + path@ + ": "@ + why@,
            ConfigError::Parse(path, why) => "parse "@ + path@ + ": "@ + why@,
            ConfigError::Validation(what) => "validation: "@ + what@,
        }
    }

    /// Writes the error.
    pub fn to_text(&self) -> (r: String)
        ensures
            r@ == self.text(),
    {
        match self {
            ConfigError::Read(path, why) => "read ".to_owned().concat(path.as_str()).concat(": ").concat(
                why.as_str(),
            ),
            ConfigError::Parse(path, why) => "parse ".to_owned().concat(path.as_str()).concat(": ").concat(
                why.as_str(),
            ),
            ConfigError::Validation(what) => "validation: ".to_owned().concat(what.as_str()),
        }
    }
}

/// The position of a channel, from position `n` on.
pub open spec fn channel_position(channels: Seq<(String, ChannelConfig)>, name: Seq<char>, n: int) -> Option<int>
    decreases channels.len() - n,
{
    if n >= channels.len() {
        None
    } else if channels[n].0@ == name {
        Some(n)
    } else {
        channel_position(channels, name, n + 1)
    }
}

/// Whether there is a channel of that name.
pub fn has_channel(channels: &Vec<(String, ChannelConfig)>, name: &str) -> (r: bool)
    ensures
        r == channel_position(channels@, name@, 0) is Some,
{
    let mut i: usize = 0;
    while i < channels.len()
        invariant
            i <= channels@.len(),
            channel_position(channels@, name@, 0) == channel_position(channels@, name@, i as int),
        decreases channels@.len() - i,
    {
        if text_eq(channels[i].0.as_str(), name) {
            return true;
        }
        i = i + 1;
    }
    false
}

/// What is wrong with the first channel, from position `n` on, that holds nothing.
pub open spec fn capacity_problem(channels: Seq<(String, ChannelConfig)>, n: int) -> Option<Seq<char>>
    decreases channels.len() - n,
{
    if n >= channels.len() {
        None
    } else if channels[n].1.capacity == 0 {
        Some("channel '"@ + channels[n].0@ + "' has capacity = 0; must be > 0"@)
    } else {
        capacity_problem(channels, n + 1)
    }
}

/// What the method and the path of a route make of it: requests are told apart by it.
pub struct RouteKey {
    pub method: Seq<char>,
    pub path: Seq<char>,
}

/// The key of the `m`-th method of a route.
pub open spec fn route_key(route: RouteConfig, m: int) -> RouteKey {
    RouteKey { method: uppercase(route.methods@[m]@), path: route.path@ }
}

/// Whether the `m`-th method of route `k` stands before the `m2`-th of route `k2`.
pub open spec fn stands_before(k: int, m: int, k2: int, m2: int) -> bool {
    k < k2 || (k == k2 && m < m2)
}

/// Whether an earlier method has the key of the `m`-th method of route `k`.
pub open spec fn is_repeated(routes: Seq<RouteConfig>, k: int, m: int) -> bool {
    exists|k1: int, m1: int|
        0 <= k1 < routes.len() && 0 <= m1 < routes[k1].methods@.len() && stands_before(k1, m1, k, m)
            && #[trigger] route_key(routes[k1], m1) == route_key(routes[k], m)
}

/// What is wrong with the first method of route `k`, from method `m` on, that repeats an
/// earlier one.
pub open spec fn repeat_problem(routes: Seq<RouteConfig>, k: int, m: int) -> Option<Seq<char>>
    decreases routes[k].methods@.len() - m,
{
    if m >= routes[k].methods@.len() {
        None
    } else if is_repeated(routes, k, m) {
        Some("duplicate route: "@ + uppercase(routes[k].methods@[m]@) + " "@ + routes[k].path@)
    } else {
        repeat_problem(routes, k, m + 1)
    }
}

/// What is wrong with the channel that a route emits to.
pub open spec fn emit_problem(route: RouteConfig, channels: Seq<(String, ChannelConfig)>) -> Option<Seq<char>> {
    match route.emit {
        Some(emit) => if channel_position(channels, emit.channel@, 0) is None {
            Some("route "@ + route.path@ + " emits to unknown channel '"@ + emit.channel@ + "'"@)
        } else {
            None
        },
        None => None,
    }
}

/// What is wrong with the answer of a route.
pub open spec fn status_problem(route: RouteConfig) -> Option<Seq<char>> {
    match route.response {
        Some(response) => if response.status < 100 || response.status > 599 {
            Some(
                "route "@ + route.path@ + " response.status = "@ + dec(response.status as nat) + " out of range"@,
            )
        } else {
            None
        },
        None => None,
    }
}

/// What is wrong with route `k`.
pub open spec fn route_problem(
    routes: Seq<RouteConfig>,
    k: int,
    channels: Seq<(String, ChannelConfig)>,
) -> Option<Seq<char>> {
    match repeat_problem(routes, k, 0) {
        Some(p) => Some(p),
        None => match emit_problem(routes[k], channels) {
            Some(p) => Some(p),
            None => status_problem(routes[k]),
        },
    }
}

/// What is wrong with the first bad route, from route `k` on.
pub open spec fn routes_problem(
    routes: Seq<RouteConfig>,
    k: int,
    channels: Seq<(String, ChannelConfig)>,
) -> Option<Seq<char>>
    decreases routes.len() - k,
{
    if k >= routes.len() {
        None
    } else {
        match route_problem(routes, k, channels) {
            Some(p) => Some(p),
            None => routes_problem(routes, k + 1, channels),
        }
    }
}

impl RelayConfig {
    /// The first thing that is wrong with the configuration.
    pub open spec fn problem(self) -> Option<Seq<char>> {
        if self.channels@.len() == 0 {
            Some("at least one channel must be defined"@)
        } else {
            match capacity_problem(self.channels@, 0) {
                Some(p) => Some(p),
                None => routes_problem(self.routes@, 0, self.channels@),
            }
        }
    }

    /// Whether a route asks for the token.
    pub open spec fn some_route_needs_token(self) -> bool {
        exists|k: int| 0 <= k < self.routes@.len() && (#[trigger] self.routes@[k]).auth !is Open
    }
}

/// Whether an earlier method has the key of the `m`-th method of route `k`.
fn find_repeat(routes: &Vec<RouteConfig>, k: usize, m: usize) -> (r: bool)
    requires
        k < routes@.len(),
        m < routes@[k as int].methods@.len(),
    ensures
        r == is_repeated(routes@, k as int, m as int),
{
    let method = to_upper(routes[k].methods[m].as_str());
    let len: usize = routes.len();
    let mut k1: usize = 0;
    while k1 <= k
        invariant
            k < len,
            len == routes@.len(),
            m < routes@[k as int].methods@.len(),
            k1 <= k + 1,
            method@ == uppercase(routes@[k as int].methods@[m as int]@),
            forall|a: int, b: int|
                0 <= a < k1 && 0 <= b < routes@[a].methods@.len() && stands_before(a, b, k as int, m as int)
                    ==> #[trigger] route_key(routes@[a], b) != route_key(routes@[k as int], m as int),
        decreases k + 1 - k1,
    {
        let count: usize = if k1 < k { routes[k1].methods.len() } else { m };
        let mut m1: usize = 0;
        while m1 < count
            invariant
                k < len,
                len == routes@.len(),
                k1 <= k,
                m < routes@[k as int].methods@.len(),
                count == (if k1 < k { routes@[k1 as int].methods@.len() } else { m as nat }),
                m1 <= count <= routes@[k1 as int].methods@.len(),
                method@ == uppercase(routes@[k as int].methods@[m as int]@),
                forall|b: int|
                    0 <= b < m1 ==> #[trigger] route_key(routes@[k1 as int], b) != route_key(
                        routes@[k as int],
                        m as int,
                    ),
            decreases count - m1,
        {
            let other = to_upper(routes[k1].methods[m1].as_str());
            if text_eq(other.as_str(), method.as_str()) && text_eq(
                routes[k1].path.as_str(),
                routes[k].path.as_str(),
            ) {
                assert(stands_before(k1 as int, m1 as int, k as int, m as int));
                assert(route_key(routes@[k1 as int], m1 as int) == route_key(routes@[k as int], m as int));
                return true;
            }
            m1 = m1 + 1;
        }
        k1 = k1 + 1;
    }
    assert(!is_repeated(routes@, k as int, m as int)) by {
        assert forall|a: int, b: int|
            0 <= a < routes@.len() && 0 <= b < routes@[a].methods@.len() && stands_before(
                a,
                b,
                k as int,
                m as int,
            ) implies #[trigger] route_key(routes@[a], b) != route_key(routes@[k as int], m as int) by {
            assert(a < k1);
        }
    }
    false
}

/// What is wrong with a route.
fn check_route(routes: &Vec<RouteConfig>, k: usize, channels: &Vec<(String, ChannelConfig)>) -> (r: Option<String>)
    requires
        k < routes@.len(),
    ensures
        match r {
            Some(p) => route_problem(routes@, k as int, channels@) == Some(p@),
            None => route_problem(routes@, k as int, channels@) is None,
        },
{
    let route = &routes[k];
    let mut m: usize = 0;
    while m < route.methods.len()
        invariant
            k < routes@.len(),
            route == routes@[k as int],
            m <= route.methods@.len(),
            repeat_problem(routes@, k as int, 0) == repeat_problem(routes@, k as int, m as int),
        decreases route.methods@.len() - m,
    {
        if find_repeat(routes, k, m) {
            let method = to_upper(route.methods[m].as_str());
            return Some(
                "duplicate route: ".to_owned().concat(method.as_str()).concat(" ").concat(route.path.as_str()),
            );
        }
        m = m + 1;
    }
    if let Some(emit) = &route.emit {
        if !has_channel(channels, emit.channel.as_str()) {
            return Some(
                "route ".to_owned().concat(route.path.as_str()).concat(" emits to unknown channel '").concat(
                    emit.channel.as_str(),
                ).concat("'"),
            );
        }
    }
    if let Some(response) = &route.response {
        if response.status < 100 || response.status > 599 {
            let status = decimal(response.status as u64);
            return Some(
                "route ".to_owned().concat(route.path.as_str()).concat(" response.status = ").concat(
                    status.as_str(),
                ).concat(" out of range"),
            );
        }
    }
    None
}

impl RelayConfig {
    /// Accepts the configuration, or tells the first thing that is wrong with it.
    pub fn validate(&self) -> (r: Result<(), ConfigError>)
        ensures
            match r {
                Ok(_) => self.problem() is None,
                Err(ConfigError::Validation(what)) => self.problem() == Some(what@),
                Err(_) => false,
            },
    {
        if self.channels.len() == 0 {
            return Err(ConfigError::Validation("at least one channel must be defined".to_owned()));
        }
        let mut i: usize = 0;
        while i < self.channels.len()
            invariant
                i <= self.channels@.len(),
                capacity_problem(self.channels@, 0) == capacity_problem(self.channels@, i as int),
            decreases self.channels@.len() - i,
        {
            if self.channels[i].1.capacity == 0 {
                return Err(
                    ConfigError::Validation(
                        "channel '".to_owned().concat(self.channels[i].0.as_str()).concat(
                            "' has capacity = 0; must be > 0",
                        ),
                    ),
                );
            }
            i = i + 1;
        }
        let mut k: usize = 0;
        while k < self.routes.len()
            invariant
                k <= self.routes@.len(),
                self.channels@.len() > 0,
                capacity_problem(self.channels@, 0) is None,
                routes_problem(self.routes@, 0, self.channels@) == routes_problem(
                    self.routes@,
                    k as int,
                    self.channels@,
                ),
            decreases self.routes@.len() - k,
        {
            if let Some(p) = check_route(&self.routes, k, &self.channels) {
                return Err(ConfigError::Validation(p));
            }
            k = k + 1;
        }
        Ok(())
    }

    /// Whether a route asks for the token, so that the relay should not start without one.
    pub fn requires_bearer(&self) -> (r: bool)
        ensures
            r == self.some_route_needs_token(),
    {
        let mut k: usize = 0;
        while k < self.routes.len()
            invariant
                k <= self.routes@.len(),
                forall|j: int| 0 <= j < k ==> (#[trigger] self.routes@[j]).auth is Open,
            decreases self.routes@.len() - k,
        {
            if self.routes[k].auth != AuthMode::Open {
                return true;
            }
            k = k + 1;
        }
        false
    }
}

proof fn lemma_no_repeats(routes: Seq<RouteConfig>, k: int, from: int, m: int)
    requires
        repeat_problem(routes, k, from) is None,
        from <= m < routes[k].methods@.len(),
    ensures
        !is_repeated(routes, k, m),
    decreases m - from,
{
    if from < m {
        lemma_no_repeats(routes, k, from + 1, m);
    }
}

proof fn lemma_routes_fine(routes: Seq<RouteConfig>, from: int, k: int, channels: Seq<(String, ChannelConfig)>)
    requires
        routes_problem(routes, from, channels) is None,
        from <= k < routes.len(),
    ensures
        route_problem(routes, k, channels) is None,
    decreases k - from,
{
    if from < k {
        lemma_routes_fine(routes, from + 1, k, channels);
    }
}

/// In a configuration that was accepted no two methods share a key.
pub proof fn law_accepted_routes_are_distinct(config: RelayConfig, k: int, m: int, k2: int, m2: int)
    requires
        config.problem() is None,
        0 <= k < config.routes@.len(),
        0 <= m < config.routes@[k].methods@.len(),
        0 <= k2 < config.routes@.len(),
        0 <= m2 < config.routes@[k2].methods@.len(),
        route_key(config.routes@[k], m) == route_key(config.routes@[k2], m2),
    ensures
        k == k2,
        m == m2,
{
    let routes = config.routes@;
    lemma_routes_fine(routes, 0, k, config.channels@);
    lemma_routes_fine(routes, 0, k2, config.channels@);
    lemma_no_repeats(routes, k, 0, m);
    lemma_no_repeats(routes, k2, 0, m2);
    if stands_before(k, m, k2, m2) {
        assert(is_repeated(routes, k2, m2));
    } else if stands_before(k2, m2, k, m) {
        assert(is_repeated(routes, k, m));
    }
}

/// In a configuration that was accepted each route emits, if at all, to a channel that is
/// there.
pub proof fn law_accepted_routes_have_their_channel(config: RelayConfig, k: int)
    requires
        config.problem() is None,
        0 <= k < config.routes@.len(),
    ensures
        config.routes@[k].emit matches Some(emit) ==> channel_position(config.channels@, emit.channel@, 0) is Some,
        config.routes@[k].response matches Some(response) ==> 100 <= response.status <= 599,
{
    lemma_routes_fine(config.routes@, 0, k, config.channels@);
}

/// When a configuration is accepted: it has a channel; every channel holds something; no two methods
/// share a key; every route that emits has its channel; and every configured status is one.
pub proof fn law_sound_configurations_are_accepted(config: RelayConfig)
    requires
        config.channels@.len() > 0,
        forall|i: int| 0 <= i < config.channels@.len() ==> (#[trigger] config.channels@[i]).1.capacity > 0,
        forall|k: int, m: int, k2: int, m2: int|
            0 <= k < config.routes@.len() && 0 <= m < config.routes@[k].methods@.len() && 0 <= k2
                < config.routes@.len() && 0 <= m2 < config.routes@[k2].methods@.len() && #[trigger] route_key(
                config.routes@[k],
                m,
            ) == #[trigger] route_key(config.routes@[k2], m2) ==> k == k2 && m == m2,
        forall|k: int|
            0 <= k < config.routes@.len() ==> ((#[trigger] config.routes@[k]).emit matches Some(emit)
                ==> exists|i: int|
                0 <= i < config.channels@.len() && (#[trigger] config.channels@[i]).0@ == emit.channel@),
        forall|k: int|
            0 <= k < config.routes@.len() ==> ((#[trigger] config.routes@[k]).response matches Some(response) ==> 100
                <= response.status <= 599),
    ensures
        config.problem() is None,
{
    lemma_capacities_fine(config.channels@, 0);
    lemma_routes_accepted(config, 0);
}

proof fn lemma_capacities_fine(channels: Seq<(String, ChannelConfig)>, n: int)
    requires
        0 <= n,
        forall|i: int| 0 <= i < channels.len() ==> (#[trigger] channels[i]).1.capacity > 0,
    ensures
        capacity_problem(channels, n) is None,
    decreases channels.len() - n,
{
    if n < channels.len() {
        assert(channels[n].1.capacity > 0);
        lemma_capacities_fine(channels, n + 1);
    }
}

proof fn lemma_channel_there(channels: Seq<(String, ChannelConfig)>, name: Seq<char>, i: int, n: int)
    requires
        0 <= n <= i < channels.len(),
        channels[i].0@ == name,
    ensures
        channel_position(channels, name, n) is Some,
    decreases i - n,
{
    if n < i {
        lemma_channel_there(channels, name, i, n + 1);
    }
}

proof fn lemma_repeats_absent(config: RelayConfig, k: int, m: int)
    requires
        0 <= k < config.routes@.len(),
        0 <= m,
        forall|k: int, m: int, k2: int, m2: int|
            0 <= k < config.routes@.len() && 0 <= m < config.routes@[k].methods@.len() && 0 <= k2
                < config.routes@.len() && 0 <= m2 < config.routes@[k2].methods@.len() && #[trigger] route_key(
                config.routes@[k],
                m,
            ) == #[trigger] route_key(config.routes@[k2], m2) ==> k == k2 && m == m2,
    ensures
        repeat_problem(config.routes@, k, m) is None,
    decreases config.routes@[k].methods@.len() - m,
{
    if m < config.routes@[k].methods@.len() {
        assert(!is_repeated(config.routes@, k, m));
        lemma_repeats_absent(config, k, m + 1);
    }
}

proof fn lemma_routes_accepted(config: RelayConfig, k: int)
    requires
        0 <= k,
        forall|k: int, m: int, k2: int, m2: int|
            0 <= k < config.routes@.len() && 0 <= m < config.routes@[k].methods@.len() && 0 <= k2
                < config.routes@.len() && 0 <= m2 < config.routes@[k2].methods@.len() && #[trigger] route_key(
                config.routes@[k],
                m,
            ) == #[trigger] route_key(config.routes@[k2], m2) ==> k == k2 && m == m2,
        forall|k: int|
            0 <= k < config.routes@.len() ==> ((#[trigger] config.routes@[k]).emit matches Some(emit)
                ==> exists|i: int|
                0 <= i < config.channels@.len() && (#[trigger] config.channels@[i]).0@ == emit.channel@),
        forall|k: int|
            0 <= k < config.routes@.len() ==> ((#[trigger] config.routes@[k]).response matches Some(response) ==> 100
                <= response.status <= 599),
    ensures
        routes_problem(config.routes@, k, config.channels@) is None,
    decreases config.routes@.len() - k,
{
    if k < config.routes@.len() {
        lemma_repeats_absent(config, k, 0);
        let route = config.routes@[k];
        if let Some(emit) = route.emit {
            let i = choose|i: int|
                0 <= i < config.channels@.len() && (#[trigger] config.channels@[i]).0@ == emit.channel@;
            lemma_channel_there(config.channels@, emit.channel@, i, 0);
        }
        lemma_routes_accepted(config, k + 1);
    }
}

/// The first thing that is wrong is told: that there is no channel, then the first channel that holds
/// nothing, then what is wrong with the routes.
pub proof fn law_the_first_problem_is_told(config: RelayConfig, i: int)
    ensures
        config.channels@.len() == 0 ==> config.problem() == Some("at least one channel must be defined"@),
        0 <= i < config.channels@.len() && config.channels@[i].1.capacity == 0 && (forall|j: int|
            0 <= j < i ==> (#[trigger] config.channels@[j]).1.capacity > 0) ==> config.problem() == Some(
            "channel '"@ + config.channels@[i].0@ + "' has capacity = 0; must be > 0"@,
        ),
{
    if 0 <= i < config.channels@.len() && config.channels@[i].1.capacity == 0 && (forall|j: int|
        0 <= j < i ==> (#[trigger] config.channels@[j]).1.capacity > 0) {
        lemma_first_empty_channel(config.channels@, i, 0);
    }
}

proof fn lemma_first_empty_channel(channels: Seq<(String, ChannelConfig)>, i: int, n: int)
    requires
        0 <= n <= i < channels.len(),
        channels[i].1.capacity == 0,
        forall|j: int| 0 <= j < i ==> (#[trigger] channels[j]).1.capacity > 0,
    ensures
        capacity_problem(channels, n) == Some("channel '"@ + channels[i].0@ + "' has capacity = 0; must be > 0"@),
    decreases i - n,
{
    if n < i {
        assert(channels[n].1.capacity > 0);
        lemma_first_empty_channel(channels, i, n + 1);
    }
}

/// What is wrong with a configuration is told with the channel, the route or the number that it is about.
pub proof fn law_problems_name_what_is_wrong(
    routes: Seq<RouteConfig>,
    channels: Seq<(String, ChannelConfig)>,
    k: int,
    m: int,
    n: int,
)
    requires
        0 <= k < routes.len(),
        0 <= m < routes[k].methods@.len(),
        0 <= n < channels.len(),
    ensures
        channels[n].1.capacity == 0 ==> capacity_problem(channels, n) == Some(
            "channel '"@ + channels[n].0@ + "' has capacity = 0; must be > 0"@,
        ),
        is_repeated(routes, k, m) ==> repeat_problem(routes, k, m) == Some(
            "duplicate route: "@ + uppercase(routes[k].methods@[m]@) + " "@ + routes[k].path@,
        ),
        routes[k].emit matches Some(emit) ==> (channel_position(channels, emit.channel@, 0) is None ==> emit_problem(
            routes[k],
            channels,
        ) == Some("route "@ + routes[k].path@ + " emits to unknown channel '"@ + emit.channel@ + "'"@)),
        routes[k].response matches Some(response) ==> (response.status < 100 || response.status >= 600
            ==> status_problem(routes[k]) == Some(
            "route "@ + routes[k].path@ + " response.status = "@ + dec(response.status as nat) + " out of range"@,
        )),
{
}

/// A configuration needs the token as soon as one of its routes is not open to everyone.
pub proof fn law_one_guarded_route_needs_the_token(config: RelayConfig, k: int)
    requires
        0 <= k < config.routes@.len(),
    ensures
        config.routes@[k].auth !is Open ==> config.some_route_needs_token(),
        (forall|j: int| 0 <= j < config.routes@.len() ==> (#[trigger] config.routes@[j]).auth is Open)
            ==> !config.some_route_needs_token(),
{
}

/// An error of a configuration is written with the step that failed, then the file, then why.
pub proof fn law_configuration_errors_tell_the_step(path: String, why: String)
    ensures
        ConfigError::Read(path, why).text() == "read "@ + path@ + ": "@ + why@,
        ConfigError::Parse(path, why).text() == "parse "@ + path@ + ": "@ + why@,
        ConfigError::Validation(why).text() == "validation: "@ + why@,
{
}

} // verus!
