use vstd::prelude::*;
use vstd::string::*;
use crate::address::{Ipv4, loopback};
use crate::codec::{decode, decoded, find_dot, next_dot};
use crate::text::{
    ascii_lower, ends_with, has_suffix, lemma_ascii_lower_idempotent,
    lemma_trimmed_lower_has_no_dot, to_ascii_lower, trim_dots, trimmed_len,
};

verus! {

/// Time to live of a rebinding answer: one second, so that resolvers ask again.
pub const REBIND_TTL: u32 = 1;

/// Time to live of the zone's own records.
pub const ZONE_TTL: u32 = 600;

/// The record types a query can ask for.
#[derive(Clone, Copy, Debug, PartialEq, Eq, Structural)]
pub enum QueryType {
    A,
    NS,
    SOA,
    AAAA,
    ANY,
    AXFR,
    CNAME,
    Other,
}

/// One question of a request.
#[derive(Clone, Debug, PartialEq, Eq)]
pub struct Query {
    /// The name asked for, as received, with its trailing `.`.
    pub name: String,
    pub query_type: QueryType,
}

/// What the server was started with; it never changes while it serves.
#[derive(Clone, Debug)]
pub struct ServerConfig {
    /// The zone served: lower-case, without a trailing `.`.
    pub root_domain: String,
    /// The zone's name servers, in the order they are advertised.
    pub ns_hostnames: Vec<String>,
    /// The address that names starting with `ns` resolve to.
    pub ns_public_address: Option<Ipv4>,
    pub bind_address: Ipv4,
    pub bind_port: u16,
}

/// The parts of a configuration that resolution reads.
pub struct ConfigView {
    pub root: Seq<char>,
    pub ns: Seq<Seq<char>>,
    pub public: Option<Ipv4>,
}

impl View for ServerConfig {
    type V = ConfigView;

    open spec fn view(&self) -> ConfigView {
        ConfigView {
            root: self.root_domain@,
            ns: self.ns_hostnames@.map_values(|h: String| h@),
            public: self.ns_public_address,
        }
    }
}

impl ServerConfig {
    /// The root domain is kept lower-case and without a trailing `.`.
    pub open spec fn wf(&self) -> bool {
        &&& self.root_domain@ == ascii_lower(self.root_domain@)
        &&& !ends_with(self.root_domain@, seq!['.'])
    }

    /// A configuration for the zone `root_domain`, which is lower-cased and
    /// loses the `.` characters at its end.
    pub fn new(
        root_domain: &str,
        ns_hostnames: Vec<String>,
        ns_public_address: Option<Ipv4>,
        bind_address: Ipv4,
        bind_port: u16,
    ) -> (r: ServerConfig)
        ensures
            r.root_domain@ == ascii_lower(trim_dots(root_domain@)),
            r.ns_hostnames == ns_hostnames,
            r.ns_public_address == ns_public_address,
            r.bind_address == bind_address,
            r.bind_port == bind_port,
            r.wf(),
    {
        let n = trimmed_len(root_domain);
        let bare = root_domain.substring_char(0, n);
        let root = to_ascii_lower(bare);
        proof {
            lemma_ascii_lower_idempotent(bare@);
            lemma_trimmed_lower_has_no_dot(root_domain@);
        }
        ServerConfig { root_domain: root, ns_hostnames, ns_public_address, bind_address, bind_port }
    }
}

/// An answer record as built for a response.
#[derive(Clone, Debug, PartialEq, Eq)]
pub enum AnswerRecord {
    A { name: String, address: Ipv4, ttl: u32 },
    Ns { name: String, host: String, ttl: u32 },
    Soa {
        name: String,
        primary_ns: String,
        mailbox: String,
        serial: u32,
        refresh: i32,
        retry: i32,
        expire: i32,
        minimum: u32,
        ttl: u32,
    },
}

/// An answer record over plain text.
pub enum RecordView {
    A { name: Seq<char>, address: Ipv4, ttl: u32 },
    Ns { name: Seq<char>, host: Seq<char>, ttl: u32 },
    Soa {
        name: Seq<char>,
        primary_ns: Seq<char>,
        mailbox: Seq<char>,
        serial: u32,
        refresh: i32,
        retry: i32,
        expire: i32,
        minimum: u32,
        ttl: u32,
    },
}

impl View for AnswerRecord {
    type V = RecordView;

    open spec fn view(&self) -> RecordView {
        match self {
            AnswerRecord::A { name, address, ttl } => RecordView::A {
                name: name@,
                address: *address,
                ttl: *ttl,
            },
            AnswerRecord::Ns { name, host, ttl } => RecordView::Ns { name: name@, host: host@, ttl: *ttl },
            AnswerRecord::Soa {
                name,
                primary_ns,
                mailbox,
                serial,
                refresh,
                retry,
                expire,
                minimum,
                ttl,
            } => RecordView::Soa {
                name: name@,
                primary_ns: primary_ns@,
                mailbox: mailbox@,
                serial: *serial,
                refresh: *refresh,
                retry: *retry,
                expire: *expire,
                minimum: *minimum,
                ttl: *ttl,
            },
        }
    }
}

/// The records of a list, over plain text.
pub open spec fn records_view(v: Seq<AnswerRecord>) -> Seq<RecordView> {
    v.map_values(|r: AnswerRecord| r@)
}

/// How a query was settled. Every case but `Answered` goes out as an empty,
/// successful response.
#[derive(Clone, Debug, PartialEq, Eq)]
pub enum Resolution {
    Answered(Vec<AnswerRecord>),
    /// The name is outside the zone.
    NotAuthoritative,
    /// The name lacks its trailing `.`, or does not carry two address labels.
    Malformed,
    /// Both encoded addresses are the same and not loopback.
    Refused,
    /// A start of authority was asked for, but no name server is configured.
    MissingNsForSoa,
    /// The zone has nothing of the asked type for the name.
    NoData,
}

/// How a query was settled, over plain text.
pub enum ResolutionView {
    Answered(Seq<RecordView>),
    NotAuthoritative,
    Malformed,
    Refused,
    MissingNsForSoa,
    NoData,
}

impl View for Resolution {
    type V = ResolutionView;

    open spec fn view(&self) -> ResolutionView {
        match self {
            Resolution::Answered(v) => ResolutionView::Answered(records_view(v@)),
            Resolution::NotAuthoritative => ResolutionView::NotAuthoritative,
            Resolution::Malformed => ResolutionView::Malformed,
            Resolution::Refused => ResolutionView::Refused,
            Resolution::MissingNsForSoa => ResolutionView::MissingNsForSoa,
            Resolution::NoData => ResolutionView::NoData,
        }
    }
}

/// The records that go out for a resolution: none unless it was answered.
pub open spec fn answers_of(r: ResolutionView) -> Seq<RecordView> {
    match r {
        ResolutionView::Answered(v) => v,
        _ => Seq::empty(),
    }
}

/// A received name without its one trailing `.`, lower-cased; none without that `.`.
pub open spec fn normalized(name: Seq<char>) -> Option<Seq<char>> {
    if name.len() > 0 && name.last() == '.' {
        Some(ascii_lower(name.drop_last()))
    } else {
        None
    }
}

/// `n` is the zone's root or a name below it, on a label boundary.
pub open spec fn in_zone(n: Seq<char>, root: Seq<char>) -> bool {
    n == root || (n.len() > root.len() && ends_with(n, root) && n[n.len() - root.len() - 1] == '.')
}

/// `n` is two labels followed by the root and nothing else.
pub open spec fn is_pair_name(n: Seq<char>, root: Seq<char>) -> bool {
    let d0 = next_dot(n, 0);
    let d1 = next_dot(n, d0 + 1);
    d1 < n.len() && n.subrange(d1 + 1, n.len() as int) == root
}

/// Both address labels are eight characters wide, the width of an encoded address.
pub open spec fn has_address_widths(n: Seq<char>) -> bool {
    next_dot(n, 0) == 8 && next_dot(n, 9) == 17
}

/// The first label starts with `ns`.
pub open spec fn starts_with_ns(n: Seq<char>) -> bool {
    n.len() >= 2 && n[0] == 'n' && n[1] == 's'
}

/// The address answer to an `A` query for `name`, normalized to `n`; `coin`
/// is the random bit that picks between the two encoded addresses.
pub open spec fn a_resolution(name: Seq<char>, n: Seq<char>, cfg: ConfigView, coin: bool) -> ResolutionView {
    if starts_with_ns(n) && cfg.public is Some {
        ResolutionView::Answered(seq![RecordView::A { name, address: cfg.public.unwrap(), ttl: ZONE_TTL }])
    } else if n == cfg.root {
        ResolutionView::NoData
    } else if !is_pair_name(n, cfg.root) || !has_address_widths(n) {
        ResolutionView::Malformed
    } else {
        match decoded(n) {
            Err(_) => ResolutionView::Malformed,
            Ok((p, s)) => if p == s && p != loopback() {
                ResolutionView::Refused
            } else {
                ResolutionView::Answered(
                    seq![RecordView::A { name, address: if coin { s } else { p }, ttl: REBIND_TTL }],
                )
            },
        }
    }
}

/// One name server record per configured host, in order, owned by `name`.
pub open spec fn ns_records(name: Seq<char>, ns: Seq<Seq<char>>) -> Seq<RecordView> {
    ns.map_values(|h: Seq<char>| RecordView::Ns { name, host: h, ttl: ZONE_TTL })
}

/// The zone's start of authority, owned by `n`, naming the first name server.
pub open spec fn soa_record(n: Seq<char>, primary_ns: Seq<char>) -> RecordView {
    RecordView::Soa {
        name: n,
        primary_ns,
        mailbox: Seq::empty(),
        serial: 1,
        refresh: 86400,
        retry: 7200,
        expire: 4_000_000,
        minimum: 600,
        ttl: ZONE_TTL,
    }
}

/// How a query for `name` of type `qtype` is settled under `cfg`.
pub open spec fn resolution(name: Seq<char>, qtype: QueryType, cfg: ConfigView, coin: bool) -> ResolutionView {
    match normalized(name) {
        None => ResolutionView::Malformed,
        Some(n) => if !in_zone(n, cfg.root) {
            ResolutionView::NotAuthoritative
        } else {
            match qtype {
                QueryType::A => a_resolution(name, n, cfg, coin),
                QueryType::NS => if cfg.ns.len() > 0 {
                    ResolutionView::Answered(ns_records(name, cfg.ns))
                } else {
                    ResolutionView::NoData
                },
                QueryType::SOA => if cfg.ns.len() > 0 {
                    ResolutionView::Answered(seq![soa_record(n, cfg.ns[0])])
                } else {
                    ResolutionView::MissingNsForSoa
                },
                _ => ResolutionView::NoData,
            }
        },
    }
}

/// The received name without its one trailing `.`, lower-cased; none
/// when it does not end with `.`.
pub fn normalize(name: &str) -> (r: Option<String>)
    ensures
        r is None <==> normalized(name@) is None,
        r is Some ==> normalized(name@) == Some(r->Some_0@),
{
    let n = name.unicode_len();
    if n == 0 || name.get_char(n - 1) != '.' {
        return None;
    }
    let bare = name.substring_char(0, n - 1);
    assert(bare@ =~= name@.drop_last());
    Some(to_ascii_lower(bare))
}

/// Whether `n` is the root or lies below it on a label boundary.
fn zone_contains(n: &str, root: &str) -> (r: bool)
    ensures
        r == in_zone(n@, root@),
{
    let ln = n.unicode_len();
    let lr = root.unicode_len();
    if ln == lr {
        String::from_str(n) == String::from_str(root)
    } else if ln > lr {
        has_suffix(n, root) && n.get_char(ln - lr - 1) == '.'
    } else {
        false
    }
}

/// Whether `n` is exactly two labels followed by the root.
fn pair_name(n: &str, root: &str) -> (r: bool)
    ensures
        r == is_pair_name(n@, root@),
{
    let len = n.unicode_len();
    let d0 = find_dot(n, 0, len);
    if d0 == len {
        return false;
    }
    let d1 = find_dot(n, d0 + 1, len);
    if d1 == len {
        return false;
    }
    String::from_str(n.substring_char(d1 + 1, len)) == String::from_str(root)
}

/// Whether both address labels of `n` are eight characters wide.
fn address_widths(n: &str) -> (r: bool)
    ensures
        r == has_address_widths(n@),
{
    let len = n.unicode_len();
    if len < 9 || find_dot(n, 0, len) != 8 {
        return false;
    }
    find_dot(n, 9, len) == 17
}

/// A list holding one address record.
fn single_address(name: &String, address: Ipv4, ttl: u32) -> (r: Vec<AnswerRecord>)
    ensures
        records_view(r@) == seq![RecordView::A { name: name@, address, ttl }],
{
    let mut v: Vec<AnswerRecord> = Vec::new();
    v.push(AnswerRecord::A { name: name.clone(), address, ttl });
    assert(records_view(v@) =~= seq![RecordView::A { name: name@, address, ttl }]);
    v
}

/// Settles an `A` query for `name`, normalized to `n`: the name servers'
/// own names, then a pair of encoded addresses, of which `coin` picks one.
fn resolve_address(name: &String, n: &String, config: &ServerConfig, coin: bool) -> (r: Resolution)
    ensures
        r@ == a_resolution(name@, n@, config@, coin),
{
    let len = n.unicode_len();
    if len >= 2 && n.get_char(0) == 'n' && n.get_char(1) == 's' {
        if let Some(public) = config.ns_public_address {
            return Resolution::Answered(single_address(name, public, ZONE_TTL));
        }
    }
    if n.eq(&config.root_domain) {
        return Resolution::NoData;
    }
    if !pair_name(n.as_str(), config.root_domain.as_str()) || !address_widths(n.as_str()) {
        return Resolution::Malformed;
    }
    match decode(n.as_str()) {
        Err(_) => Resolution::Malformed,
        Ok((primary, secondary)) => {
            if primary.same_as(&secondary) && !primary.same_as(&Ipv4::localhost()) {
                Resolution::Refused
            } else {
                let chosen = if coin {
                    secondary
                } else {
                    primary
                };
                Resolution::Answered(single_address(name, chosen, REBIND_TTL))
            }
        },
    }
}

/// One name server record per host, in order, each owned by `name`.
fn ns_answers(name: &String, hosts: &Vec<String>) -> (r: Vec<AnswerRecord>)
    ensures
        records_view(r@) == ns_records(name@, hosts@.map_values(|h: String| h@)),
{
    let ghost all = hosts@.map_values(|h: String| h@);
    let mut out: Vec<AnswerRecord> = Vec::new();
    let mut i: usize = 0;
    while i < hosts.len()
        invariant
            i <= hosts.len(),
            all == hosts@.map_values(|h: String| h@),
            records_view(out@) =~= ns_records(name@, all.take(i as int)),
        decreases hosts.len() - i,
    {
        let ghost before = out@;
        let record = AnswerRecord::Ns { name: name.clone(), host: hosts[i].clone(), ttl: ZONE_TTL };
        out.push(record);
        assert(all.take(i + 1) =~= all.take(i as int).push(hosts@[i as int]@));
        assert(records_view(out@) =~= records_view(before).push(record@));
        assert(ns_records(name@, all.take(i + 1)) =~= ns_records(name@, all.take(i as int)).push(
            record@,
        ));
        i = i + 1;
    }
    assert(all.take(hosts@.len() as int) =~= all);
    out
}

/// The zone's start of authority, owned by `n`, naming `primary_ns`.
fn soa_answer(n: &String, primary_ns: &String) -> (r: Vec<AnswerRecord>)
    ensures
        records_view(r@) == seq![soa_record(n@, primary_ns@)],
{
    let mut v: Vec<AnswerRecord> = Vec::new();
    v.push(
        AnswerRecord::Soa {
            name: n.clone(),
            primary_ns: primary_ns.clone(),
            mailbox: String::new(),
            serial: 1,
            refresh: 86400,
            retry: 7200,
            expire: 4_000_000,
            minimum: 600,
            ttl: ZONE_TTL,
        },
    );
    assert(records_view(v@) =~= seq![soa_record(n@, primary_ns@)]);
    v
}

/// Settles one query under `config`. `coin` is a fair random bit: it picks
/// which of two encoded addresses answers.
pub fn resolve_query(query: &Query, config: &ServerConfig, coin: bool) -> (r: Resolution)
    ensures
        r@ == resolution(query.name@, query.query_type, config@, coin),
{
    let n = match normalize(query.name.as_str()) {
        Some(n) => n,
        None => return Resolution::Malformed,
    };
    if !zone_contains(n.as_str(), config.root_domain.as_str()) {
        return Resolution::NotAuthoritative;
    }
    match query.query_type {
        QueryType::A => resolve_address(&query.name, &n, config, coin),
        QueryType::NS => {
            if config.ns_hostnames.len() > 0 {
                Resolution::Answered(ns_answers(&query.name, &config.ns_hostnames))
            } else {
                Resolution::NoData
            }
        },
        QueryType::SOA => {
            if config.ns_hostnames.len() > 0 {
                Resolution::Answered(soa_answer(&n, &config.ns_hostnames[0]))
            } else {
                Resolution::MissingNsForSoa
            }
        },
        _ => Resolution::NoData,
    }
}

/// The answer records for one query under `config`: empty unless the query
/// was answered. `coin` is a fair random bit.
pub fn resolve(query: &Query, config: &ServerConfig, coin: bool) -> (r: Vec<AnswerRecord>)
    ensures
        records_view(r@) == answers_of(resolution(query.name@, query.query_type, config@, coin)),
{
    match resolve_query(query, config, coin) {
        Resolution::Answered(v) => v,
        _ => {
            let v: Vec<AnswerRecord> = Vec::new();
            assert(records_view(v@) =~= Seq::<RecordView>::empty());
            v
        },
    }
}

} // verus!
