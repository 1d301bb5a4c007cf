//! The proxy's configuration: its defaults, the command-line flag grammar,
//! and the rule for acceptable bearer tokens.

use vstd::prelude::*;
use crate::json::str_eqs;
use crate::num::parse_int;
use crate::num::parse_u64_dec;
use crate::num::is_dec_digit;

verus! {

/// Everything the proxy is configured with.
#[derive(Debug)]
pub struct Config {
    pub port: u16,
    pub targets: Vec<String>,
    pub cache_ttl: u64,
    pub health_interval: u64,
    pub request_timeout: u64,
    pub cache_max_size: u64,
    pub token: Option<String>,
    pub verbose: bool,
    pub health: bool,
}

/// The mathematical shape of a configuration.
#[verifier::ext_equal]
pub struct ConfigView {
    pub port: u16,
    pub targets: Seq<Seq<char>>,
    pub cache_ttl: u64,
    pub health_interval: u64,
    pub request_timeout: u64,
    pub cache_max_size: u64,
    pub token: Option<Seq<char>>,
    pub verbose: bool,
    pub health: bool,
}

impl View for Config {
    type V = ConfigView;

    open spec fn view(&self) -> ConfigView {
        ConfigView {
            port: self.port,
            targets: Seq::new(self.targets@.len(), |i: int| self.targets@[i]@),
            cache_ttl: self.cache_ttl,
            health_interval: self.health_interval,
            request_timeout: self.request_timeout,
            cache_max_size: self.cache_max_size,
            token: match self.token {
                Some(t) => Some(t@),
                None => None,
            },
            verbose: self.verbose,
            health: self.health,
        }
    }
}

/// What the proxy does when nothing else is asked of it: port nine thousand,
/// one local backend, two-second default answers, half-hour sweeps.
pub open spec fn spec_default_config() -> ConfigView {
    ConfigView {
        port: 9000,
        targets: seq!["http://localhost:8545"@],
        cache_ttl: 2000,
        health_interval: 1800,
        request_timeout: 10,
        cache_max_size: 10000,
        token: None,
        verbose: false,
        health: false,
    }
}

/// The position of the first comma, if any.
pub open spec fn spec_first_comma(s: Seq<char>) -> Option<int>
    decreases s.len(),
{
    if s.len() == 0 {
        None
    } else if s[0] == ',' {
        Some(0)
    } else {
        match spec_first_comma(s.skip(1)) {
            Some(j) => Some(j + 1),
            None => None,
        }
    }
}

/// The first comma lies inside the text.
proof fn lemma_first_comma_bounds(s: Seq<char>)
    ensures
        match spec_first_comma(s) {
            Some(j) => 0 <= j < s.len() && s[j] == ',' && forall|k: int|
                0 <= k < j ==> s[k] != ',',
            None => forall|k: int| 0 <= k < s.len() ==> s[k] != ',',
        },
    decreases s.len(),
{
    if s.len() > 0 && s[0] != ',' {
        lemma_first_comma_bounds(s.skip(1));
        match spec_first_comma(s.skip(1)) {
            Some(j) => {
                assert(s.skip(1)[j] == s[j + 1]);
                assert forall|k: int| 0 <= k < j + 1 implies s[k] != ',' by {
                    if k > 0 {
                        assert(s.skip(1)[k - 1] == s[k]);
                    }
                }
            },
            None => {
                assert forall|k: int| 0 <= k < s.len() implies s[k] != ',' by {
                    if k > 0 {
                        assert(s.skip(1)[k - 1] == s[k]);
                    }
                }
            },
        }
    }
}

/// Text split on commas, in order; a text without commas is one piece.
pub open spec fn spec_split_commas(s: Seq<char>) -> Seq<Seq<char>>
    decreases s.len(),
{
    match spec_first_comma(s) {
        Some(j) => if 0 <= j < s.len() {
            seq![s.take(j)] + spec_split_commas(s.skip(j + 1))
        } else {
            seq![s]
        },
        None => seq![s],
    }
}

/// Splits text on commas.
#[verifier::loop_isolation(false)]
pub fn split_commas(s: &str) -> (r: Vec<String>)
    ensures
        Seq::new(r@.len(), |i: int| r@[i]@) == spec_split_commas(s@),
    decreases s@.len(),
{
    let n = s.unicode_len();
    let mut i: usize = 0;
    while i < n && s.get_char(i) != ','
        invariant
            i <= n,
            forall|k: int| 0 <= k < i ==> s@[k] != ',',
        decreases n - i,
    {
        i += 1;
    }
    proof {
        lemma_first_comma_bounds(s@);
    }
    if i == n {
        let mut out: Vec<String> = Vec::new();
        out.push(s.to_owned());
        proof {
            assert(Seq::new(out@.len(), |j: int| out@[j]@) =~= spec_split_commas(s@));
        }
        out
    } else {
        let head = s.substring_char(0, i);
        let tail = s.substring_char(i + 1, n);
        proof {
            assert(tail@ =~= s@.skip(i as int + 1));
            assert(head@ =~= s@.take(i as int));
        }
        let mut rest = split_commas(tail);
        let ghost rest_views = Seq::new(rest@.len(), |j: int| rest@[j]@);
        let mut out: Vec<String> = Vec::new();
        out.push(head.to_owned());
        while rest.len() > 0
            invariant
                out@.len() >= 1,
                out@[0]@ == s@.take(i as int),
                out@.len() + rest@.len() == 1 + rest_views.len(),
                forall|j: int|
                    1 <= j < out@.len() ==> (#[trigger] out@[j])@ == rest_views[j - 1],
                forall|j: int|
                    0 <= j < rest@.len() ==> (#[trigger] rest@[j])@ == rest_views[out@.len() - 1
                        + j],
            decreases rest@.len(),
        {
            let piece = rest.remove(0);
            out.push(piece);
        }
        proof {
            assert(Seq::new(out@.len(), |j: int| out@[j]@) =~= spec_split_commas(s@));
        }
        out
    }
}

/// What a numeric flag value denotes: a decimal integer in unsigned
/// sixty-four bit range.
pub open spec fn spec_flag_u64(s: Seq<char>) -> Option<u64> {
    match parse_int(s) {
        Some(v) => if 0 <= v <= u64::MAX {
            Some(v as u64)
        } else {
            None
        },
        None => None,
    }
}

/// Reads a numeric flag value.
fn parse_flag_u64(s: &str) -> (r: Option<u64>)
    ensures
        r == spec_flag_u64(s@),
{
    match parse_u64_dec(s) {
        Some(v) => {
            proof {
                assert(is_dec_digit(s@[0]));
            }
            Some(v)
        },
        None => {
            let n = s.unicode_len();
            if n > 1 && s.get_char(0) == '-' {
                let rest = s.substring_char(1, n);
                proof {
                    assert(rest@ =~= s@.skip(1));
                }
                match parse_u64_dec(rest) {
                    Some(v) => {
                        if v == 0 {
                            Some(0)
                        } else {
                            None
                        }
                    },
                    None => None,
                }
            } else {
                None
            }
        },
    }
}

/// What the flags after the program name leave of the configuration. An
/// unknown flag, a missing value, or a number out of range spoils the whole
/// command line.
pub open spec fn spec_parse_flags(args: Seq<Seq<char>>, i: int, c: ConfigView) -> Option<
    ConfigView,
>
    decreases args.len() - i,
{
    if i >= args.len() {
        Some(c)
    } else if args[i] == "--health"@ {
        spec_parse_flags(args, i + 1, ConfigView { health: true, ..c })
    } else if args[i] == "--verbose"@ || args[i] == "-v"@ {
        spec_parse_flags(args, i + 1, ConfigView { verbose: true, ..c })
    } else if i + 1 < args.len() && args[i] == "--port"@ {
        match spec_flag_u64(args[i + 1]) {
            Some(v) => if v <= u16::MAX {
                spec_parse_flags(args, i + 2, ConfigView { port: v as u16, ..c })
            } else {
                None
            },
            None => None,
        }
    } else if i + 1 < args.len() && args[i] == "--targets"@ {
        spec_parse_flags(args, i + 2, ConfigView { targets: spec_split_commas(args[i + 1]), ..c })
    } else if i + 1 < args.len() && args[i] == "--cache-ttl"@ {
        match spec_flag_u64(args[i + 1]) {
            Some(v) => spec_parse_flags(args, i + 2, ConfigView { cache_ttl: v, ..c }),
            None => None,
        }
    } else if i + 1 < args.len() && args[i] == "--health-interval"@ {
        match spec_flag_u64(args[i + 1]) {
            Some(v) => spec_parse_flags(args, i + 2, ConfigView { health_interval: v, ..c }),
            None => None,
        }
    } else if i + 1 < args.len() && args[i] == "--request-timeout"@ {
        match spec_flag_u64(args[i + 1]) {
            Some(v) => spec_parse_flags(args, i + 2, ConfigView { request_timeout: v, ..c }),
            None => None,
        }
    } else if i + 1 < args.len() && args[i] == "--cache-max-size"@ {
        match spec_flag_u64(args[i + 1]) {
            Some(v) => spec_parse_flags(args, i + 2, ConfigView { cache_max_size: v, ..c }),
            None => None,
        }
    } else if i + 1 < args.len() && args[i] == "--token"@ {
        spec_parse_flags(args, i + 2, ConfigView { token: Some(args[i + 1]), ..c })
    } else {
        None
    }
}

/// What a whole command line denotes: the program name, then flags over the
/// defaults.
pub open spec fn spec_parse_args(args: Seq<Seq<char>>) -> Option<ConfigView> {
    if args.len() < 1 {
        None
    } else {
        spec_parse_flags(args, 1, spec_default_config())
    }
}

impl Config {
    /// Reads a command line: the program name, then flags over the defaults.
    #[verifier::loop_isolation(false)]
    pub fn parse_from(args: &Vec<String>) -> (r: Option<Config>)
        ensures
            match r {
                Some(c) => spec_parse_args(Seq::new(args@.len(), |i: int| args@[i]@)) == Some(
                    c@,
                ),
                None => spec_parse_args(Seq::new(args@.len(), |i: int| args@[i]@)) is None,
            },
    {
        let ghost av = Seq::new(args@.len(), |i: int| args@[i]@);
        if args.len() < 1 {
            return None;
        }
        let mut config = Config {
            port: 9000,
            targets: Vec::new(),
            cache_ttl: 2000,
            health_interval: 1800,
            request_timeout: 10,
            cache_max_size: 10000,
            token: None,
            verbose: false,
            health: false,
        };
        config.targets.push("http://localhost:8545".to_owned());
        proof {
            assert(config@ =~= spec_default_config());
        }
        let n = args.len();
        let mut i: usize = 1;
        while i < n
            invariant
                1 <= i,
                spec_parse_flags(av, i as int, config@) == spec_parse_flags(
                    av,
                    1,
                    spec_default_config(),
                ),
            decreases n - i,
        {
            let arg = args[i].as_str();
            let ghost before = config@;
            if str_eqs(arg, "--health") {
                config.health = true;
                proof {
                    assert(config@ =~= (ConfigView { health: true, ..before }));
                }
                i += 1;
            } else if str_eqs(arg, "--verbose") || str_eqs(arg, "-v") {
                config.verbose = true;
                proof {
                    assert(config@ =~= (ConfigView { verbose: true, ..before }));
                }
                i += 1;
            } else if i + 1 < n && str_eqs(arg, "--port") {
                match parse_flag_u64(args[i + 1].as_str()) {
                    Some(v) => {
                        if v <= u16::MAX as u64 {
                            config.port = v as u16;
                            proof {
                                assert(config@ =~= (ConfigView {
                                    port: v as u16,
                                    ..before
                                }));
                            }
                            i += 2;
                        } else {
                            return None;
                        }
                    },
                    None => {
                        return None;
                    },
                }
            } else if i + 1 < n && str_eqs(arg, "--targets") {
                config.targets = split_commas(args[i + 1].as_str());
                proof {
                    assert(config@ =~= (ConfigView {
                        targets: spec_split_commas(av[i as int + 1]),
                        ..before
                    }));
                }
                i += 2;
            } else if i + 1 < n && str_eqs(arg, "--cache-ttl") {
                match parse_flag_u64(args[i + 1].as_str()) {
                    Some(v) => {
                        config.cache_ttl = v;
                        proof {
                            assert(config@ =~= (ConfigView { cache_ttl: v, ..before }));
                        }
                        i += 2;
                    },
                    None => {
                        return None;
                    },
                }
            } else if i + 1 < n && str_eqs(arg, "--health-interval") {
                match parse_flag_u64(args[i + 1].as_str()) {
                    Some(v) => {
                        config.health_interval = v;
                        proof {
                            assert(config@ =~= (ConfigView { health_interval: v, ..before }));
                        }
                        i += 2;
                    },
                    None => {
                        return None;
                    },
                }
            } else if i + 1 < n && str_eqs(arg, "--request-timeout") {
                match parse_flag_u64(args[i + 1].as_str()) {
                    Some(v) => {
                        config.request_timeout = v;
                        proof {
                            assert(config@ =~= (ConfigView { request_timeout: v, ..before }));
                        }
                        i += 2;
                    },
                    None => {
                        return None;
                    },
                }
            } else if i + 1 < n && str_eqs(arg, "--cache-max-size") {
                match parse_flag_u64(args[i + 1].as_str()) {
                    Some(v) => {
                        config.cache_max_size = v;
                        proof {
                            assert(config@ =~= (ConfigView { cache_max_size: v, ..before }));
                        }
                        i += 2;
                    },
                    None => {
                        return None;
                    },
                }
            } else if i + 1 < n && str_eqs(arg, "--token") {
                config.token = Some(args[i + 1].clone());
                proof {
                    assert(config@ =~= (ConfigView {
                        token: Some(av[i as int + 1]),
                        ..before
                    }));
                }
                i += 2;
            } else {
                return None;
            }
        }
        Some(config)
    }
}

/// Whether a character may appear in a bearer token: letters, digits, and the
/// four unreserved marks.
pub open spec fn spec_token_char(c: char) -> bool {
    ('A' <= c <= 'Z') || ('a' <= c <= 'z') || ('0' <= c <= '9') || c == '-' || c == '_' || c
        == '.' || c == '~'
}

/// Checks a bearer token: it must be non-empty and hold only letters, digits,
/// and the four unreserved marks, so it can stand in a URL path.
#[verifier::loop_isolation(false)]
pub fn validate_token(token: &str) -> (r: Result<(), String>)
    ensures
        r is Ok <==> (token@.len() > 0 && forall|i: int|
            0 <= i < token@.len() ==> spec_token_char(#[trigger] token@[i])),
{
    let n = token.unicode_len();
    if n == 0 {
        return Err("token must not be empty".to_owned());
    }
    let mut i: usize = 0;
    while i < n
        invariant
            i <= n,
            forall|j: int| 0 <= j < i ==> spec_token_char(#[trigger] token@[j]),
        decreases n - i,
    {
        let c = token.get_char(i);
        let ok = (c >= 'A' && c <= 'Z') || (c >= 'a' && c <= 'z') || (c >= '0' && c <= '9') || c
            == '-' || c == '_' || c == '.' || c == '~';
        if !ok {
            return Err("token holds a character that cannot stand in a URL path".to_owned());
        }
        i += 1;
    }
    Ok(())
}

} // verus!
