use vstd::prelude::*;

use crate::addr::IpAddress;

verus! {

/// The service configuration.
pub struct Config {
    /// Comma-separated node label selector; all nodes when absent.
    pub node_labels: Option<String>,
    /// Whether unschedulable nodes are left out.
    pub skip_unschedulable: bool,
    /// Seconds between health-check / provider-update rounds; never zero.
    pub update_interval_sec: u64,
    pub dns: Dns,
    pub health_check: Option<HealthCheck>,
}

impl Config {
    /// The update interval is a positive number of seconds.
    pub open spec fn wf(&self) -> bool {
        self.update_interval_sec > 0
    }

    /// Whether the configuration is well-formed.
    pub fn is_valid(&self) -> (r: bool)
        ensures
            r == self.wf(),
    {
        self.update_interval_sec > 0
    }
}

pub struct Dns {
    pub hostname: String,
    pub ttl: u32,
    pub provider: DnsProviderKind,
}

pub enum DnsProviderKind {
    Simulated,
    Cloudflare(CloudflareConfig),
    Route53(Route53Config),
}

pub struct CloudflareConfig {
    pub zone_id: String,
    pub api_token: String,
}

pub struct Route53Config {
    pub hosted_zone_id: String,
}

pub struct HealthCheck {
    /// Consecutive successes that turn an unhealthy address healthy.
    pub checks_to_up: usize,
    /// Consecutive failures that turn a healthy address unhealthy; zero
    /// disables checks of healthy addresses.
    pub checks_to_down: usize,
    pub kind: HealthCheckKind,
}

pub enum HealthCheckKind {
    Http(HttpHealthCheck),
}

pub struct HttpHealthCheck {
    pub uri: String,
    pub port: u16,
    pub timeout_sec: u64,
    pub valid_status_codes: Vec<u16>,
}

impl HttpHealthCheck {
    /// Whether an HTTP response with this status counts as a success.
    pub fn accepts_status(&self, status: u16) -> (r: bool)
        ensures
            r == self.valid_status_codes@.contains(status),
    {
        let n = self.valid_status_codes.len();
        let mut i: usize = 0;
        while i < n
            invariant
                n == self.valid_status_codes@.len(),
                i <= n,
                forall|j: int| 0 <= j < i ==> self.valid_status_codes@[j] != status,
            decreases n - i,
        {
            if self.valid_status_codes[i] == status {
                return true;
            }
            i = i + 1;
        }
        false
    }

    /// The result of a check: a success where a response came in time and
    /// its status is one of the valid ones.
    pub fn outcome(&self, status: Option<u16>) -> (r: bool)
        ensures
            r == match status {
                Some(s) => self.valid_status_codes@.contains(s),
                None => false,
            },
    {
        match status {
            Some(s) => self.accepts_status(s),
            None => false,
        }
    }
}

/// The digit character for `d` in `0..10`.
pub open spec fn digit_char(d: int) -> char {
    if d == 0 {
        '0'
    } else if d == 1 {
        '1'
    } else if d == 2 {
        '2'
    } else if d == 3 {
        '3'
    } else if d == 4 {
        '4'
    } else if d == 5 {
        '5'
    } else if d == 6 {
        '6'
    } else if d == 7 {
        '7'
    } else if d == 8 {
        '8'
    } else {
        '9'
    }
}

/// The decimal numeral of `n`, without leading zeros.
pub open spec fn decimal(n: nat) -> Seq<char>
    decreases n,
{
    if n < 10 {
        seq![digit_char(n as int)]
    } else {
        decimal(n / 10).push(digit_char((n % 10) as int))
    }
}

fn digit_str(d: u16) -> (r: &'static str)
    requires
        d < 10,
    ensures
        r@ == seq![digit_char(d as int)],
{
    if d == 0 {
        proof { reveal_strlit("0"); }
        "0"
    } else if d == 1 {
        proof { reveal_strlit("1"); }
        "1"
    } else if d == 2 {
        proof { reveal_strlit("2"); }
        "2"
    } else if d == 3 {
        proof { reveal_strlit("3"); }
        "3"
    } else if d == 4 {
        proof { reveal_strlit("4"); }
        "4"
    } else if d == 5 {
        proof { reveal_strlit("5"); }
        "5"
    } else if d == 6 {
        proof { reveal_strlit("6"); }
        "6"
    } else if d == 7 {
        proof { reveal_strlit("7"); }
        "7"
    } else if d == 8 {
        proof { reveal_strlit("8"); }
        "8"
    } else {
        proof { reveal_strlit("9"); }
        "9"
    }
}

/// Writes `n` in decimal.
pub fn decimal_string(n: u16) -> (r: String)
    ensures
        r@ == decimal(n as nat),
    decreases n,
{
    if n < 10 {
        let mut s = String::new();
        s.append(digit_str(n));
        assert(s@ =~= decimal(n as nat));
        s
    } else {
        let mut s = decimal_string(n / 10);
        s.append(digit_str(n % 10));
        assert(s@ =~= decimal(n as nat));
        s
    }
}

/// The host part of a URL for an address written as `text`: IPv6
/// addresses go in square brackets.
pub open spec fn url_host(address: IpAddress, text: Seq<char>) -> Seq<char> {
    match address {
        IpAddress::V4(_) => text,
        IpAddress::V6(_) => "["@ + text + "]"@,
    }
}

impl HttpHealthCheck {
    /// The URL that checks `address`, written as `address_text`:
    /// `http://<host>:<port><uri>`.
    pub fn url(&self, address: IpAddress, address_text: &str) -> (r: String)
        ensures
            r@ == "http://"@ + url_host(address, address_text@) + ":"@ + decimal(self.port as nat)
                + self.uri@,
    {
        let mut s = String::new();
        s.append("http://");
        match address {
            IpAddress::V4(_) => {
                s.append(address_text);
            },
            IpAddress::V6(_) => {
                s.append("[");
                s.append(address_text);
                s.append("]");
            },
        }
        s.append(":");
        let port = decimal_string(self.port);
        s.append(port.as_str());
        s.append(self.uri.as_str());
        assert(s@ =~= "http://"@ + url_host(address, address_text@) + ":"@ + decimal(self.port as nat)
            + self.uri@);
        s
    }
}

/// Default of `skip_unschedulable`.
pub fn default_true() -> (r: bool)
    ensures
        r,
{
    true
}

/// Default of `update_interval_sec`.
pub fn default_5() -> (r: u64)
    ensures
        r == 5,
{
    5
}

/// Default port of an HTTP health check.
pub fn default_http_port() -> (r: u16)
    ensures
        r == 80,
{
    80
}

} // verus!
