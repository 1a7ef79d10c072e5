//! The three shapes a plugin's output can take — attachment, version object,
//! plugin error — and the records inside them, with their readings from and
//! printings to JSON trees. The readings are strict: an attachment must show
//! at least one of its discriminating keys, and a version object must show
//! `supportedVersions`, so that the two cannot be confused.

use vstd::prelude::*;

use crate::json::Json;
use crate::json::JsonV;
use crate::json::kv_get;
use crate::json::kv_has;
use crate::json::obj_get;
use crate::json::spec_elems_view;
use crate::json::spec_entries_view;
use crate::net::ip_addr_valid;
use crate::net::ip_inet_valid;
use crate::net::is_ip_inet_text;
use crate::net::spec_is_ip_addr_text;
use crate::strutil::parse_uint_plain;
use crate::strutil::spec_dec_digits;
use crate::strutil::spec_parse_uint;
use crate::strutil::u32_to_string;
use crate::types::CniVersion;
use crate::types::spec_version_parse;

verus! {

// --- view helpers ---------------------------------------------------------

/// The views of the elements of a sequence.
pub open spec fn spec_seq_view<T: View>(s: Seq<T>) -> Seq<T::V> {
    Seq::new(s.len(), |i: int| s[i]@)
}

/// The view under an optional value.
pub open spec fn spec_opt_view<T: View>(o: Option<T>) -> Option<T::V> {
    match o {
        Option::Some(t) => Option::Some(t@),
        Option::None => Option::None,
    }
}

// --- reading a uniform sequence of items ------------------------------------

/// Reads every element of a JSON sequence with the given reading, in order;
/// one failure fails the whole.
pub open spec fn spec_parse_items<T>(es: Seq<JsonV>, f: spec_fn(JsonV) -> Option<T>) -> Option<
    Seq<T>,
>
    decreases es.len(),
{
    if es.len() == 0 {
        Option::Some(Seq::<T>::empty())
    } else {
        match spec_parse_items(es.drop_last(), f) {
            Option::None => Option::None,
            Option::Some(pre) => match f(es.last()) {
                Option::None => Option::None,
                Option::Some(t) => Option::Some(pre.push(t)),
            },
        }
    }
}

proof fn lemma_parse_items_prefix_none<T>(es: Seq<JsonV>, f: spec_fn(JsonV) -> Option<T>, j: int)
    requires
        0 <= j <= es.len(),
        spec_parse_items(es.subrange(0, j), f) is None,
    ensures
        spec_parse_items(es, f) is None,
    decreases es.len() - j,
{
    if j == es.len() {
        assert(es.subrange(0, j) =~= es);
    } else {
        assert(es.subrange(0, j + 1).drop_last() =~= es.subrange(0, j));
        lemma_parse_items_prefix_none(es, f, j + 1);
    }
}

// --- reading one field of an object -----------------------------------------

/// A required string field.
pub open spec fn spec_field_req_str(m: Seq<(Seq<char>, JsonV)>, k: Seq<char>) -> Option<Seq<char>> {
    match kv_get(m, k) {
        Option::Some(JsonV::Str(s)) => Option::Some(s),
        _ => Option::None,
    }
}

/// An optional string field: absent or null reads as nothing.
pub open spec fn spec_field_opt_str(m: Seq<(Seq<char>, JsonV)>, k: Seq<char>) -> Result<
    Option<Seq<char>>,
    (),
> {
    match kv_get(m, k) {
        Option::None => Result::Ok(Option::None),
        Option::Some(JsonV::Null) => Result::Ok(Option::None),
        Option::Some(JsonV::Str(s)) => Result::Ok(Option::Some(s)),
        _ => Result::Err(()),
    }
}

/// A required unsigned field, read from the number's literal text.
pub open spec fn spec_field_req_uint(
    m: Seq<(Seq<char>, JsonV)>,
    k: Seq<char>,
    max: nat,
) -> Option<nat> {
    match kv_get(m, k) {
        Option::Some(JsonV::Num(t)) => spec_parse_uint(t, max, false),
        _ => Option::None,
    }
}

/// An optional unsigned field: absent or null reads as nothing.
pub open spec fn spec_field_opt_uint(
    m: Seq<(Seq<char>, JsonV)>,
    k: Seq<char>,
    max: nat,
) -> Result<Option<nat>, ()> {
    match kv_get(m, k) {
        Option::None => Result::Ok(Option::None),
        Option::Some(JsonV::Null) => Result::Ok(Option::None),
        Option::Some(JsonV::Num(t)) => match spec_parse_uint(t, max, false) {
            Option::Some(v) => Result::Ok(Option::Some(v)),
            Option::None => Result::Err(()),
        },
        _ => Result::Err(()),
    }
}

fn field_req_str(entries: &Vec<(String, Json)>, key: &str) -> (r: Option<String>)
    ensures
        match r {
            Some(s) => spec_field_req_str(spec_entries_view(entries@), key@) == Some(s@),
            None => spec_field_req_str(spec_entries_view(entries@), key@) is None,
        },
{
    match obj_get(entries, key) {
        Some(j) => match j {
            Json::Str(s) => Some(s.clone()),
            _ => None,
        },
        None => None,
    }
}

fn field_opt_str(entries: &Vec<(String, Json)>, key: &str) -> (r: Result<Option<String>, ()>)
    ensures
        match r {
            Ok(Some(s)) => spec_field_opt_str(spec_entries_view(entries@), key@) == Ok::<
                _,
                (),
            >(Some(s@)),
            Ok(None) => spec_field_opt_str(spec_entries_view(entries@), key@) == Ok::<
                Option<Seq<char>>,
                (),
            >(None),
            Err(_) => spec_field_opt_str(spec_entries_view(entries@), key@) is Err,
        },
{
    match obj_get(entries, key) {
        Some(j) => match j {
            Json::Null => Ok(None),
            Json::Str(s) => Ok(Some(s.clone())),
            _ => Err(()),
        },
        None => Ok(None),
    }
}

fn field_req_u32(entries: &Vec<(String, Json)>, key: &str) -> (r: Option<u32>)
    ensures
        match r {
            Some(v) => spec_field_req_uint(spec_entries_view(entries@), key@, 0xFFFF_FFFF)
                == Some(v as nat),
            None => spec_field_req_uint(spec_entries_view(entries@), key@, 0xFFFF_FFFF) is None,
        },
{
    match obj_get(entries, key) {
        Some(j) => match j {
            Json::Num(t) => match parse_uint_plain(t.as_str(), 0xFFFF_FFFF) {
                Some(v) => Some(v as u32),
                None => None,
            },
            _ => None,
        },
        None => None,
    }
}

fn field_req_u16(entries: &Vec<(String, Json)>, key: &str) -> (r: Option<u16>)
    ensures
        match r {
            Some(v) => spec_field_req_uint(spec_entries_view(entries@), key@, 0xFFFF) == Some(
                v as nat,
            ),
            None => spec_field_req_uint(spec_entries_view(entries@), key@, 0xFFFF) is None,
        },
{
    match obj_get(entries, key) {
        Some(j) => match j {
            Json::Num(t) => match parse_uint_plain(t.as_str(), 0xFFFF) {
                Some(v) => Some(v as u16),
                None => None,
            },
            _ => None,
        },
        None => None,
    }
}

fn field_opt_u32(entries: &Vec<(String, Json)>, key: &str) -> (r: Result<Option<u32>, ()>)
    ensures
        match r {
            Ok(Some(v)) => spec_field_opt_uint(spec_entries_view(entries@), key@, 0xFFFF_FFFF)
                == Ok::<_, ()>(Some(v as nat)),
            Ok(None) => spec_field_opt_uint(spec_entries_view(entries@), key@, 0xFFFF_FFFF) == Ok::<
                Option<nat>,
                (),
            >(None),
            Err(_) => spec_field_opt_uint(spec_entries_view(entries@), key@, 0xFFFF_FFFF) is Err,
        },
{
    match obj_get(entries, key) {
        Some(j) => match j {
            Json::Null => Ok(None),
            Json::Num(t) => match parse_uint_plain(t.as_str(), 0xFFFF_FFFF) {
                Some(v) => Ok(Some(v as u32)),
                None => Err(()),
            },
            _ => Err(()),
        },
        None => Ok(None),
    }
}

// --- attachment interface record ---------------------------------------------

/// One interface of an attachment.
#[derive(Debug, Clone)]
pub struct CniAttachmentInterface {
    pub name: String,
    pub mac: Option<String>,
    pub mtu: Option<u32>,
    pub sandbox: Option<String>,
    pub socket_path: Option<String>,
    pub pci_id: Option<String>,
}

/// The shape of an attachment interface.
#[verifier::ext_equal]
pub struct CniAttachmentInterfaceV {
    pub name: Seq<char>,
    pub mac: Option<Seq<char>>,
    pub mtu: Option<u32>,
    pub sandbox: Option<Seq<char>>,
    pub socket_path: Option<Seq<char>>,
    pub pci_id: Option<Seq<char>>,
}

impl View for CniAttachmentInterface {
    type V = CniAttachmentInterfaceV;

    open spec fn view(&self) -> CniAttachmentInterfaceV {
        CniAttachmentInterfaceV {
            name: self.name@,
            mac: spec_opt_view(self.mac),
            mtu: self.mtu,
            sandbox: spec_opt_view(self.sandbox),
            socket_path: spec_opt_view(self.socket_path),
            pci_id: spec_opt_view(self.pci_id),
        }
    }
}

/// The reading of one attachment interface: `name` is required, the rest
/// optional; `socketPath` and `pciID` are the wire spellings.
pub open spec fn spec_interface_from_json(j: JsonV) -> Option<CniAttachmentInterfaceV> {
    match j {
        JsonV::Obj(m) => {
            match (
                spec_field_req_str(m, "name"@),
                spec_field_opt_str(m, "mac"@),
                spec_field_opt_uint(m, "mtu"@, 0xFFFF_FFFF),
                spec_field_opt_str(m, "sandbox"@),
                spec_field_opt_str(m, "socketPath"@),
                spec_field_opt_str(m, "pciID"@),
            ) {
                (
                    Option::Some(name),
                    Result::Ok(mac),
                    Result::Ok(mtu),
                    Result::Ok(sandbox),
                    Result::Ok(socket_path),
                    Result::Ok(pci_id),
                ) => Option::Some(
                    CniAttachmentInterfaceV {
                        name,
                        mac,
                        mtu: match mtu {
                            Option::Some(v) => Option::Some(v as u32),
                            Option::None => Option::None,
                        },
                        sandbox,
                        socket_path,
                        pci_id,
                    },
                ),
                _ => Option::None,
            }
        },
        _ => Option::None,
    }
}

/// Reads one attachment interface out of a JSON value.
pub fn interface_from_json(j: &Json) -> (r: Option<CniAttachmentInterface>)
    ensures
        match r {
            Some(v) => spec_interface_from_json(j@) == Some(v@),
            None => spec_interface_from_json(j@) is None,
        },
{
    match j {
        Json::Obj(entries) => {
            let name = match field_req_str(entries, "name") {
                Some(s) => s,
                None => {
                    return None;
                },
            };
            let mac = match field_opt_str(entries, "mac") {
                Ok(v) => v,
                Err(_) => {
                    return None;
                },
            };
            let mtu = match field_opt_u32(entries, "mtu") {
                Ok(v) => v,
                Err(_) => {
                    return None;
                },
            };
            let sandbox = match field_opt_str(entries, "sandbox") {
                Ok(v) => v,
                Err(_) => {
                    return None;
                },
            };
            let socket_path = match field_opt_str(entries, "socketPath") {
                Ok(v) => v,
                Err(_) => {
                    return None;
                },
            };
            let pci_id = match field_opt_str(entries, "pciID") {
                Ok(v) => v,
                Err(_) => {
                    return None;
                },
            };
            Some(CniAttachmentInterface { name, mac, mtu, sandbox, socket_path, pci_id })
        },
        _ => None,
    }
}

// --- attachment ip record -----------------------------------------------------

/// One IP assignment of an attachment. The address is inet text
/// (`address/prefix` or a bare address); the gateway is bare address text.
#[derive(Debug, Clone)]
pub struct CniAttachmentIp {
    pub address: String,
    pub gateway: String,
    pub interface: u32,
}

/// The shape of an attachment IP assignment.
#[verifier::ext_equal]
pub struct CniAttachmentIpV {
    pub address: Seq<char>,
    pub gateway: Seq<char>,
    pub interface: u32,
}

impl View for CniAttachmentIp {
    type V = CniAttachmentIpV;

    open spec fn view(&self) -> CniAttachmentIpV {
        CniAttachmentIpV { address: self.address@, gateway: self.gateway@, interface: self.interface }
    }
}

/// The reading of one IP assignment: all three fields required, the address
/// valid inet text and the gateway valid bare address text.
pub open spec fn spec_ip_from_json(j: JsonV) -> Option<CniAttachmentIpV> {
    match j {
        JsonV::Obj(m) => {
            match (
                spec_field_req_str(m, "address"@),
                spec_field_req_str(m, "gateway"@),
                spec_field_req_uint(m, "interface"@, 0xFFFF_FFFF),
            ) {
                (Option::Some(address), Option::Some(gateway), Option::Some(interface)) => {
                    if is_ip_inet_text(address) && spec_is_ip_addr_text(gateway) {
                        Option::Some(
                            CniAttachmentIpV { address, gateway, interface: interface as u32 },
                        )
                    } else {
                        Option::None
                    }
                },
                _ => Option::None,
            }
        },
        _ => Option::None,
    }
}

/// Reads one IP assignment out of a JSON value.
pub fn ip_from_json(j: &Json) -> (r: Option<CniAttachmentIp>)
    ensures
        match r {
            Some(v) => spec_ip_from_json(j@) == Some(v@),
            None => spec_ip_from_json(j@) is None,
        },
{
    match j {
        Json::Obj(entries) => {
            let address = match field_req_str(entries, "address") {
                Some(s) => s,
                None => {
                    return None;
                },
            };
            let gateway = match field_req_str(entries, "gateway") {
                Some(s) => s,
                None => {
                    return None;
                },
            };
            let interface = match field_req_u32(entries, "interface") {
                Some(v) => v,
                None => {
                    return None;
                },
            };
            if !ip_inet_valid(address.as_str()) {
                return None;
            }
            if !ip_addr_valid(gateway.as_str()) {
                return None;
            }
            Some(CniAttachmentIp { address, gateway, interface })
        },
        _ => None,
    }
}

// --- attachment route record ----------------------------------------------------

/// One route of an attachment.
#[derive(Debug, Clone)]
pub struct CniAttachmentRoute {
    pub dst: String,
    pub gw: Option<String>,
    pub mtu: Option<u32>,
    pub advmss: Option<u32>,
    pub priority: Option<u32>,
    pub table: Option<u32>,
    pub scope: Option<u32>,
}

/// The shape of an attachment route.
#[verifier::ext_equal]
pub struct CniAttachmentRouteV {
    pub dst: Seq<char>,
    pub gw: Option<Seq<char>>,
    pub mtu: Option<u32>,
    pub advmss: Option<u32>,
    pub priority: Option<u32>,
    pub table: Option<u32>,
    pub scope: Option<u32>,
}

impl View for CniAttachmentRoute {
    type V = CniAttachmentRouteV;

    open spec fn view(&self) -> CniAttachmentRouteV {
        CniAttachmentRouteV {
            dst: self.dst@,
            gw: spec_opt_view(self.gw),
            mtu: self.mtu,
            advmss: self.advmss,
            priority: self.priority,
            table: self.table,
            scope: self.scope,
        }
    }
}

pub open spec fn spec_opt_nat_as_u32(o: Option<nat>) -> Option<u32> {
    match o {
        Option::Some(v) => Option::Some(v as u32),
        Option::None => Option::None,
    }
}

/// The reading of one route: `dst` is required valid inet text; `gw`, when
/// present, valid bare address text; the rest optional numbers.
pub open spec fn spec_route_from_json(j: JsonV) -> Option<CniAttachmentRouteV> {
    match j {
        JsonV::Obj(m) => {
            match (
                spec_field_req_str(m, "dst"@),
                spec_field_opt_str(m, "gw"@),
                spec_field_opt_uint(m, "mtu"@, 0xFFFF_FFFF),
                spec_field_opt_uint(m, "advmss"@, 0xFFFF_FFFF),
                spec_field_opt_uint(m, "priority"@, 0xFFFF_FFFF),
                spec_field_opt_uint(m, "table"@, 0xFFFF_FFFF),
                spec_field_opt_uint(m, "scope"@, 0xFFFF_FFFF),
            ) {
                (
                    Option::Some(dst),
                    Result::Ok(gw),
                    Result::Ok(mtu),
                    Result::Ok(advmss),
                    Result::Ok(priority),
                    Result::Ok(table),
                    Result::Ok(scope),
                ) => {
                    if is_ip_inet_text(dst) && (match gw {
                        Option::Some(g) => spec_is_ip_addr_text(g),
                        Option::None => true,
                    }) {
                        Option::Some(
                            CniAttachmentRouteV {
                                dst,
                                gw,
                                mtu: spec_opt_nat_as_u32(mtu),
                                advmss: spec_opt_nat_as_u32(advmss),
                                priority: spec_opt_nat_as_u32(priority),
                                table: spec_opt_nat_as_u32(table),
                                scope: spec_opt_nat_as_u32(scope),
                            },
                        )
                    } else {
                        Option::None
                    }
                },
                _ => Option::None,
            }
        },
        _ => Option::None,
    }
}

/// Reads one route out of a JSON value.
pub fn route_from_json(j: &Json) -> (r: Option<CniAttachmentRoute>)
    ensures
        match r {
            Some(v) => spec_route_from_json(j@) == Some(v@),
            None => spec_route_from_json(j@) is None,
        },
{
    match j {
        Json::Obj(entries) => {
            let dst = match field_req_str(entries, "dst") {
                Some(s) => s,
                None => {
                    return None;
                },
            };
            let gw = match field_opt_str(entries, "gw") {
                Ok(v) => v,
                Err(_) => {
                    return None;
                },
            };
            let mtu = match field_opt_u32(entries, "mtu") {
                Ok(v) => v,
                Err(_) => {
                    return None;
                },
            };
            let advmss = match field_opt_u32(entries, "advmss") {
                Ok(v) => v,
                Err(_) => {
                    return None;
                },
            };
            let priority = match field_opt_u32(entries, "priority") {
                Ok(v) => v,
                Err(_) => {
                    return None;
                },
            };
            let table = match field_opt_u32(entries, "table") {
                Ok(v) => v,
                Err(_) => {
                    return None;
                },
            };
            let scope = match field_opt_u32(entries, "scope") {
                Ok(v) => v,
                Err(_) => {
                    return None;
                },
            };
            if !ip_inet_valid(dst.as_str()) {
                return None;
            }
            match &gw {
                Some(g) => {
                    if !ip_addr_valid(g.as_str()) {
                        return None;
                    }
                },
                None => {},
            }
            Some(CniAttachmentRoute { dst, gw, mtu, advmss, priority, table, scope })
        },
        _ => None,
    }
}

// --- item readings, named so that the specs can share them -------------------

/// The reading of one plain string item.
pub open spec fn item_str() -> spec_fn(JsonV) -> Option<Seq<char>> {
    |j: JsonV|
        match j {
            JsonV::Str(s) => Option::Some(s),
            _ => Option::None,
        }
}

/// The reading of one bare-address string item.
pub open spec fn item_addr() -> spec_fn(JsonV) -> Option<Seq<char>> {
    |j: JsonV|
        match j {
            JsonV::Str(s) => if spec_is_ip_addr_text(s) {
                Option::Some(s)
            } else {
                Option::None
            },
            _ => Option::None,
        }
}

/// The reading of one version string item, rebuilt as canonical text.
pub open spec fn item_version() -> spec_fn(JsonV) -> Option<Seq<char>> {
    |j: JsonV|
        match j {
            JsonV::Str(s) => match spec_version_parse(s) {
                Result::Ok(c) => Option::Some(c),
                Result::Err(_) => Option::None,
            },
            _ => Option::None,
        }
}

/// The reading of one attachment interface item.
pub open spec fn item_interface() -> spec_fn(JsonV) -> Option<CniAttachmentInterfaceV> {
    |j: JsonV| spec_interface_from_json(j)
}

/// The reading of one IP assignment item.
pub open spec fn item_ip() -> spec_fn(JsonV) -> Option<CniAttachmentIpV> {
    |j: JsonV| spec_ip_from_json(j)
}

/// The reading of one route item.
pub open spec fn item_route() -> spec_fn(JsonV) -> Option<CniAttachmentRouteV> {
    |j: JsonV| spec_route_from_json(j)
}

/// An array-of-items field that defaults to empty when absent.
pub open spec fn spec_field_arr<T>(
    m: Seq<(Seq<char>, JsonV)>,
    k: Seq<char>,
    f: spec_fn(JsonV) -> Option<T>,
) -> Result<Seq<T>, ()> {
    match kv_get(m, k) {
        Option::None => Result::Ok(Seq::<T>::empty()),
        Option::Some(JsonV::Arr(es)) => match spec_parse_items(es, f) {
            Option::Some(v) => Result::Ok(v),
            Option::None => Result::Err(()),
        },
        _ => Result::Err(()),
    }
}

// --- attachment dns record -----------------------------------------------------

/// The DNS outcome of an attachment.
#[derive(Debug, Clone)]
pub struct CniAttachmentDns {
    pub nameservers: Vec<String>,
    pub domain: Option<String>,
    pub search: Vec<String>,
    pub options: Vec<String>,
}

/// The shape of an attachment's DNS outcome.
#[verifier::ext_equal]
pub struct CniAttachmentDnsV {
    pub nameservers: Seq<Seq<char>>,
    pub domain: Option<Seq<char>>,
    pub search: Seq<Seq<char>>,
    pub options: Seq<Seq<char>>,
}

impl View for CniAttachmentDns {
    type V = CniAttachmentDnsV;

    open spec fn view(&self) -> CniAttachmentDnsV {
        CniAttachmentDnsV {
            nameservers: spec_seq_view(self.nameservers@),
            domain: spec_opt_view(self.domain),
            search: spec_seq_view(self.search@),
            options: spec_seq_view(self.options@),
        }
    }
}

/// The reading of a DNS record: every field optional, the nameservers bare
/// address text, the arrays defaulting to empty.
pub open spec fn spec_dns_from_json(j: JsonV) -> Option<CniAttachmentDnsV> {
    match j {
        JsonV::Obj(m) => {
            match (
                spec_field_arr(m, "nameservers"@, item_addr()),
                spec_field_opt_str(m, "domain"@),
                spec_field_arr(m, "search"@, item_str()),
                spec_field_arr(m, "options"@, item_str()),
            ) {
                (
                    Result::Ok(nameservers),
                    Result::Ok(domain),
                    Result::Ok(search),
                    Result::Ok(options),
                ) => Option::Some(CniAttachmentDnsV { nameservers, domain, search, options }),
                _ => Option::None,
            }
        },
        _ => Option::None,
    }
}

// --- executable item loops ------------------------------------------------------

fn parse_str_items(elems: &Vec<Json>) -> (r: Option<Vec<String>>)
    ensures
        match r {
            Some(v) => spec_parse_items(spec_elems_view(elems@), item_str()) == Some(
                spec_seq_view(v@),
            ),
            None => spec_parse_items(spec_elems_view(elems@), item_str()) is None,
        },
{
    let ghost es = spec_elems_view(elems@);
    let ghost f = item_str();
    let mut out: Vec<String> = Vec::new();
    let n = elems.len();
    let mut i: usize = 0;
    while i < n
        invariant
            n == elems@.len(),
            0 <= i <= n,
            es == spec_elems_view(elems@),
            f == item_str(),
            spec_parse_items(es.subrange(0, i as int), f) == Some(spec_seq_view(out@)),
        decreases n - i,
    {
        proof {
            assert(es.subrange(0, i + 1).drop_last() =~= es.subrange(0, i as int));
            assert(es.subrange(0, i + 1).last() == es[i as int]);
        }
        let item = match &elems[i] {
            Json::Str(s) => s.clone(),
            _ => {
                proof {
                    assert(f(es[i as int]) is None);
                    lemma_parse_items_prefix_none(es, f, i + 1);
                }
                return None;
            },
        };
        out.push(item);
        proof {
            assert(spec_seq_view(out@) =~= spec_parse_items(
                es.subrange(0, i + 1),
                f,
            )->Some_0);
        }
        i = i + 1;
    }
    proof {
        assert(es.subrange(0, n as int) =~= es);
    }
    Some(out)
}

fn parse_addr_items(elems: &Vec<Json>) -> (r: Option<Vec<String>>)
    ensures
        match r {
            Some(v) => spec_parse_items(spec_elems_view(elems@), item_addr()) == Some(
                spec_seq_view(v@),
            ),
            None => spec_parse_items(spec_elems_view(elems@), item_addr()) is None,
        },
{
    let ghost es = spec_elems_view(elems@);
    let ghost f = item_addr();
    let mut out: Vec<String> = Vec::new();
    let n = elems.len();
    let mut i: usize = 0;
    while i < n
        invariant
            n == elems@.len(),
            0 <= i <= n,
            es == spec_elems_view(elems@),
            f == item_addr(),
            spec_parse_items(es.subrange(0, i as int), f) == Some(spec_seq_view(out@)),
        decreases n - i,
    {
        proof {
            assert(es.subrange(0, i + 1).drop_last() =~= es.subrange(0, i as int));
            assert(es.subrange(0, i + 1).last() == es[i as int]);
        }
        let item = match &elems[i] {
            Json::Str(s) => {
                if ip_addr_valid(s.as_str()) {
                    s.clone()
                } else {
                    proof {
                        assert(f(es[i as int]) is None);
                        lemma_parse_items_prefix_none(es, f, i + 1);
                    }
                    return None;
                }
            },
            _ => {
                proof {
                    assert(f(es[i as int]) is None);
                    lemma_parse_items_prefix_none(es, f, i + 1);
                }
                return None;
            },
        };
        out.push(item);
        proof {
            assert(spec_seq_view(out@) =~= spec_parse_items(
                es.subrange(0, i + 1),
                f,
            )->Some_0);
        }
        i = i + 1;
    }
    proof {
        assert(es.subrange(0, n as int) =~= es);
    }
    Some(out)
}

fn parse_version_items(elems: &Vec<Json>) -> (r: Option<Vec<CniVersion>>)
    ensures
        match r {
            Some(v) => spec_parse_items(spec_elems_view(elems@), item_version()) == Some(
                spec_seq_view(v@),
            ),
            None => spec_parse_items(spec_elems_view(elems@), item_version()) is None,
        },
{
    let ghost es = spec_elems_view(elems@);
    let ghost f = item_version();
    let mut out: Vec<CniVersion> = Vec::new();
    let n = elems.len();
    let mut i: usize = 0;
    while i < n
        invariant
            n == elems@.len(),
            0 <= i <= n,
            es == spec_elems_view(elems@),
            f == item_version(),
            spec_parse_items(es.subrange(0, i as int), f) == Some(spec_seq_view(out@)),
        decreases n - i,
    {
        proof {
            assert(es.subrange(0, i + 1).drop_last() =~= es.subrange(0, i as int));
            assert(es.subrange(0, i + 1).last() == es[i as int]);
        }
        let item = match &elems[i] {
            Json::Str(s) => match CniVersion::parse(s.as_str()) {
                Ok(v) => v,
                Err(_) => {
                    proof {
                        assert(f(es[i as int]) is None);
                        lemma_parse_items_prefix_none(es, f, i + 1);
                    }
                    return None;
                },
            },
            _ => {
                proof {
                    assert(f(es[i as int]) is None);
                    lemma_parse_items_prefix_none(es, f, i + 1);
                }
                return None;
            },
        };
        out.push(item);
        proof {
            assert(spec_seq_view(out@) =~= spec_parse_items(
                es.subrange(0, i + 1),
                f,
            )->Some_0);
        }
        i = i + 1;
    }
    proof {
        assert(es.subrange(0, n as int) =~= es);
    }
    Some(out)
}

fn parse_interface_items(elems: &Vec<Json>) -> (r: Option<Vec<CniAttachmentInterface>>)
    ensures
        match r {
            Some(v) => spec_parse_items(spec_elems_view(elems@), item_interface()) == Some(
                spec_seq_view(v@),
            ),
            None => spec_parse_items(spec_elems_view(elems@), item_interface()) is None,
        },
{
    let ghost es = spec_elems_view(elems@);
    let ghost f = item_interface();
    let mut out: Vec<CniAttachmentInterface> = Vec::new();
    let n = elems.len();
    let mut i: usize = 0;
    while i < n
        invariant
            n == elems@.len(),
            0 <= i <= n,
            es == spec_elems_view(elems@),
            f == item_interface(),
            spec_parse_items(es.subrange(0, i as int), f) == Some(spec_seq_view(out@)),
        decreases n - i,
    {
        proof {
            assert(es.subrange(0, i + 1).drop_last() =~= es.subrange(0, i as int));
            assert(es.subrange(0, i + 1).last() == es[i as int]);
        }
        let item = match interface_from_json(&elems[i]) {
            Some(v) => v,
            None => {
                proof {
                    assert(f(es[i as int]) is None);
                    lemma_parse_items_prefix_none(es, f, i + 1);
                }
                return None;
            },
        };
        out.push(item);
        proof {
            assert(spec_seq_view(out@) =~= spec_parse_items(
                es.subrange(0, i + 1),
                f,
            )->Some_0);
        }
        i = i + 1;
    }
    proof {
        assert(es.subrange(0, n as int) =~= es);
    }
    Some(out)
}

fn parse_ip_items(elems: &Vec<Json>) -> (r: Option<Vec<CniAttachmentIp>>)
    ensures
        match r {
            Some(v) => spec_parse_items(spec_elems_view(elems@), item_ip()) == Some(
                spec_seq_view(v@),
            ),
            None => spec_parse_items(spec_elems_view(elems@), item_ip()) is None,
        },
{
    let ghost es = spec_elems_view(elems@);
    let ghost f = item_ip();
    let mut out: Vec<CniAttachmentIp> = Vec::new();
    let n = elems.len();
    let mut i: usize = 0;
    while i < n
        invariant
            n == elems@.len(),
            0 <= i <= n,
            es == spec_elems_view(elems@),
            f == item_ip(),
            spec_parse_items(es.subrange(0, i as int), f) == Some(spec_seq_view(out@)),
        decreases n - i,
    {
        proof {
            assert(es.subrange(0, i + 1).drop_last() =~= es.subrange(0, i as int));
            assert(es.subrange(0, i + 1).last() == es[i as int]);
        }
        let item = match ip_from_json(&elems[i]) {
            Some(v) => v,
            None => {
                proof {
                    assert(f(es[i as int]) is None);
                    lemma_parse_items_prefix_none(es, f, i + 1);
                }
                return None;
            },
        };
        out.push(item);
        proof {
            assert(spec_seq_view(out@) =~= spec_parse_items(
                es.subrange(0, i + 1),
                f,
            )->Some_0);
        }
        i = i + 1;
    }
    proof {
        assert(es.subrange(0, n as int) =~= es);
    }
    Some(out)
}

fn parse_route_items(elems: &Vec<Json>) -> (r: Option<Vec<CniAttachmentRoute>>)
    ensures
        match r {
            Some(v) => spec_parse_items(spec_elems_view(elems@), item_route()) == Some(
                spec_seq_view(v@),
            ),
            None => spec_parse_items(spec_elems_view(elems@), item_route()) is None,
        },
{
    let ghost es = spec_elems_view(elems@);
    let ghost f = item_route();
    let mut out: Vec<CniAttachmentRoute> = Vec::new();
    let n = elems.len();
    let mut i: usize = 0;
    while i < n
        invariant
            n == elems@.len(),
            0 <= i <= n,
            es == spec_elems_view(elems@),
            f == item_route(),
            spec_parse_items(es.subrange(0, i as int), f) == Some(spec_seq_view(out@)),
        decreases n - i,
    {
        proof {
            assert(es.subrange(0, i + 1).drop_last() =~= es.subrange(0, i as int));
            assert(es.subrange(0, i + 1).last() == es[i as int]);
        }
        let item = match route_from_json(&elems[i]) {
            Some(v) => v,
            None => {
                proof {
                    assert(f(es[i as int]) is None);
                    lemma_parse_items_prefix_none(es, f, i + 1);
                }
                return None;
            },
        };
        out.push(item);
        proof {
            assert(spec_seq_view(out@) =~= spec_parse_items(
                es.subrange(0, i + 1),
                f,
            )->Some_0);
        }
        i = i + 1;
    }
    proof {
        assert(es.subrange(0, n as int) =~= es);
    }
    Some(out)
}

/// Reads a DNS record out of a JSON value.
pub fn dns_from_json(j: &Json) -> (r: Option<CniAttachmentDns>)
    ensures
        match r {
            Some(v) => spec_dns_from_json(j@) == Some(v@),
            None => spec_dns_from_json(j@) is None,
        },
{
    match j {
        Json::Obj(entries) => {
            let nameservers = match obj_get(entries, "nameservers") {
                None => Vec::new(),
                Some(g) => match g {
                    Json::Arr(es) => match parse_addr_items(es) {
                        Some(v) => v,
                        None => {
                            return None;
                        },
                    },
                    _ => {
                        return None;
                    },
                },
            };
            let domain = match field_opt_str(entries, "domain") {
                Ok(v) => v,
                Err(_) => {
                    return None;
                },
            };
            let search = match obj_get(entries, "search") {
                None => Vec::new(),
                Some(g) => match g {
                    Json::Arr(es) => match parse_str_items(es) {
                        Some(v) => v,
                        None => {
                            return None;
                        },
                    },
                    _ => {
                        return None;
                    },
                },
            };
            let options = match obj_get(entries, "options") {
                None => Vec::new(),
                Some(g) => match g {
                    Json::Arr(es) => match parse_str_items(es) {
                        Some(v) => v,
                        None => {
                            return None;
                        },
                    },
                    _ => {
                        return None;
                    },
                },
            };
            proof {
                assert(spec_seq_view(Seq::<String>::empty()) =~= Seq::<Seq<char>>::empty());
            }
            Some(CniAttachmentDns { nameservers, domain, search, options })
        },
        _ => None,
    }
}

// --- the attachment ---------------------------------------------------------------

/// The outcome of attaching a container to a network.
#[derive(Debug, Clone)]
pub struct CniAttachment {
    pub cni_version: CniVersion,
    pub interfaces: Vec<CniAttachmentInterface>,
    pub ips: Vec<CniAttachmentIp>,
    pub routes: Vec<CniAttachmentRoute>,
    pub dns: Option<CniAttachmentDns>,
}

/// The shape of an attachment.
#[verifier::ext_equal]
pub struct CniAttachmentV {
    pub cni_version: Seq<char>,
    pub interfaces: Seq<CniAttachmentInterfaceV>,
    pub ips: Seq<CniAttachmentIpV>,
    pub routes: Seq<CniAttachmentRouteV>,
    pub dns: Option<CniAttachmentDnsV>,
}

impl View for CniAttachment {
    type V = CniAttachmentV;

    open spec fn view(&self) -> CniAttachmentV {
        CniAttachmentV {
            cni_version: self.cni_version@,
            interfaces: spec_seq_view(self.interfaces@),
            ips: spec_seq_view(self.ips@),
            routes: spec_seq_view(self.routes@),
            dns: spec_opt_view(self.dns),
        }
    }
}

/// The `dns` field of an attachment: absent or null reads as nothing.
pub open spec fn spec_dns_field(m: Seq<(Seq<char>, JsonV)>) -> Result<
    Option<CniAttachmentDnsV>,
    (),
> {
    match kv_get(m, "dns"@) {
        Option::None => Result::Ok(Option::None),
        Option::Some(JsonV::Null) => Result::Ok(Option::None),
        Option::Some(d) => match spec_dns_from_json(d) {
            Option::Some(x) => Result::Ok(Option::Some(x)),
            Option::None => Result::Err(()),
        },
    }
}

/// The strict reading of an attachment: a valid `cniVersion`, and at least
/// one of the discriminating keys `interfaces`, `ips`, `routes`, `dns`
/// present, so that a bare version object never reads as an attachment.
pub open spec fn spec_attachment_from_json(j: JsonV) -> Option<CniAttachmentV> {
    match j {
        JsonV::Obj(m) => {
            if !(kv_has(m, "interfaces"@) || kv_has(m, "ips"@) || kv_has(m, "routes"@) || kv_has(
                m,
                "dns"@,
            )) {
                Option::None
            } else {
                match spec_field_req_str(m, "cniVersion"@) {
                    Option::None => Option::None,
                    Option::Some(vs) => match spec_version_parse(vs) {
                        Result::Err(_) => Option::None,
                        Result::Ok(ver) => match (
                            spec_field_arr(m, "interfaces"@, item_interface()),
                            spec_field_arr(m, "ips"@, item_ip()),
                            spec_field_arr(m, "routes"@, item_route()),
                            spec_dns_field(m),
                        ) {
                            (
                                Result::Ok(interfaces),
                                Result::Ok(ips),
                                Result::Ok(routes),
                                Result::Ok(dns),
                            ) => Option::Some(
                                CniAttachmentV { cni_version: ver, interfaces, ips, routes, dns },
                            ),
                            _ => Option::None,
                        },
                    },
                }
            }
        },
        _ => Option::None,
    }
}

impl CniAttachment {
    /// Reads an attachment out of a JSON value, strictly.
    pub fn from_json(j: &Json) -> (r: Option<CniAttachment>)
        ensures
            match r {
                Some(v) => spec_attachment_from_json(j@) == Some(v@),
                None => spec_attachment_from_json(j@) is None,
            },
    {
        match j {
            Json::Obj(entries) => {
                let has_any = obj_get(entries, "interfaces").is_some() || obj_get(
                    entries,
                    "ips",
                ).is_some() || obj_get(entries, "routes").is_some() || obj_get(
                    entries,
                    "dns",
                ).is_some();
                if !has_any {
                    return None;
                }
                let vs = match field_req_str(entries, "cniVersion") {
                    Some(s) => s,
                    None => {
                        return None;
                    },
                };
                let cni_version = match CniVersion::parse(vs.as_str()) {
                    Ok(v) => v,
                    Err(_) => {
                        return None;
                    },
                };
                let interfaces = match obj_get(entries, "interfaces") {
                    None => Vec::new(),
                    Some(g) => match g {
                        Json::Arr(es) => match parse_interface_items(es) {
                            Some(v) => v,
                            None => {
                                return None;
                            },
                        },
                        _ => {
                            return None;
                        },
                    },
                };
                let ips = match obj_get(entries, "ips") {
                    None => Vec::new(),
                    Some(g) => match g {
                        Json::Arr(es) => match parse_ip_items(es) {
                            Some(v) => v,
                            None => {
                                return None;
                            },
                        },
                        _ => {
                            return None;
                        },
                    },
                };
                let routes = match obj_get(entries, "routes") {
                    None => Vec::new(),
                    Some(g) => match g {
                        Json::Arr(es) => match parse_route_items(es) {
                            Some(v) => v,
                            None => {
                                return None;
                            },
                        },
                        _ => {
                            return None;
                        },
                    },
                };
                let dns = match obj_get(entries, "dns") {
                    None => None,
                    Some(g) => match g {
                        Json::Null => None,
                        _ => match dns_from_json(g) {
                            Some(d) => Some(d),
                            None => {
                                return None;
                            },
                        },
                    },
                };
                proof {
                    assert(spec_seq_view(Seq::<CniAttachmentInterface>::empty())
                        =~= Seq::<CniAttachmentInterfaceV>::empty());
                    assert(spec_seq_view(Seq::<CniAttachmentIp>::empty())
                        =~= Seq::<CniAttachmentIpV>::empty());
                    assert(spec_seq_view(Seq::<CniAttachmentRoute>::empty())
                        =~= Seq::<CniAttachmentRouteV>::empty());
                }
                Some(CniAttachment { cni_version, interfaces, ips, routes, dns })
            },
            _ => None,
        }
    }
}

// --- printing the attachment -------------------------------------------------------

/// An entry for an optional string field: present only when the field is.
pub open spec fn spec_opt_str_entry(k: Seq<char>, o: Option<Seq<char>>) -> Seq<
    (Seq<char>, JsonV),
> {
    match o {
        Option::Some(s) => seq![(k, JsonV::Str(s))],
        Option::None => Seq::<(Seq<char>, JsonV)>::empty(),
    }
}

/// An entry for an optional number field: present only when the field is.
pub open spec fn spec_opt_num_entry(k: Seq<char>, o: Option<u32>) -> Seq<(Seq<char>, JsonV)> {
    match o {
        Option::Some(u) => seq![(k, JsonV::Num(spec_dec_digits(u as nat)))],
        Option::None => Seq::<(Seq<char>, JsonV)>::empty(),
    }
}

/// The printings of the elements of a sequence.
pub open spec fn spec_emit_items<T>(s: Seq<T>, f: spec_fn(T) -> JsonV) -> Seq<JsonV> {
    Seq::new(s.len(), |i: int| f(s[i]))
}

/// The printing of one string item.
pub open spec fn emit_str() -> spec_fn(Seq<char>) -> JsonV {
    |s: Seq<char>| JsonV::Str(s)
}

/// The printing of one attachment interface.
pub open spec fn emit_interface() -> spec_fn(CniAttachmentInterfaceV) -> JsonV {
    |v: CniAttachmentInterfaceV| spec_interface_to_json(v)
}

/// The printing of one IP assignment.
pub open spec fn emit_ip() -> spec_fn(CniAttachmentIpV) -> JsonV {
    |v: CniAttachmentIpV| spec_ip_to_json(v)
}

/// The printing of one route.
pub open spec fn emit_route() -> spec_fn(CniAttachmentRouteV) -> JsonV {
    |v: CniAttachmentRouteV| spec_route_to_json(v)
}

/// The printing of an attachment interface: `name` first, then each
/// optional field that is present, under its wire key.
pub open spec fn spec_interface_to_json(v: CniAttachmentInterfaceV) -> JsonV {
    JsonV::Obj(
        seq![("name"@, JsonV::Str(v.name))] + spec_opt_str_entry("mac"@, v.mac)
            + spec_opt_num_entry("mtu"@, v.mtu) + spec_opt_str_entry("sandbox"@, v.sandbox)
            + spec_opt_str_entry("socketPath"@, v.socket_path) + spec_opt_str_entry(
            "pciID"@,
            v.pci_id,
        ),
    )
}

/// The printing of an IP assignment.
pub open spec fn spec_ip_to_json(v: CniAttachmentIpV) -> JsonV {
    JsonV::Obj(
        seq![
            ("address"@, JsonV::Str(v.address)),
            ("gateway"@, JsonV::Str(v.gateway)),
            ("interface"@, JsonV::Num(spec_dec_digits(v.interface as nat))),
        ],
    )
}

/// The printing of a route.
pub open spec fn spec_route_to_json(v: CniAttachmentRouteV) -> JsonV {
    JsonV::Obj(
        seq![("dst"@, JsonV::Str(v.dst))] + spec_opt_str_entry("gw"@, v.gw) + spec_opt_num_entry(
            "mtu"@,
            v.mtu,
        ) + spec_opt_num_entry("advmss"@, v.advmss) + spec_opt_num_entry("priority"@, v.priority)
            + spec_opt_num_entry("table"@, v.table) + spec_opt_num_entry("scope"@, v.scope),
    )
}

/// The printing of a DNS record: the arrays always, the domain when present.
pub open spec fn spec_dns_to_json(v: CniAttachmentDnsV) -> JsonV {
    JsonV::Obj(
        seq![("nameservers"@, JsonV::Arr(spec_emit_items(v.nameservers, emit_str())))]
            + spec_opt_str_entry("domain"@, v.domain) + seq![
            ("search"@, JsonV::Arr(spec_emit_items(v.search, emit_str()))),
            ("options"@, JsonV::Arr(spec_emit_items(v.options, emit_str()))),
        ],
    )
}

/// The printing of an attachment: the version, the three arrays always, the
/// DNS record when present.
pub open spec fn spec_attachment_to_json(v: CniAttachmentV) -> JsonV {
    JsonV::Obj(
        seq![
            ("cniVersion"@, JsonV::Str(v.cni_version)),
            ("interfaces"@, JsonV::Arr(spec_emit_items(v.interfaces, emit_interface()))),
            ("ips"@, JsonV::Arr(spec_emit_items(v.ips, emit_ip()))),
            ("routes"@, JsonV::Arr(spec_emit_items(v.routes, emit_route()))),
        ] + (match v.dns {
            Option::Some(d) => seq![("dns"@, spec_dns_to_json(d))],
            Option::None => Seq::<(Seq<char>, JsonV)>::empty(),
        }),
    )
}

/// Prints one attachment interface as a JSON value.
fn interface_to_json(v: &CniAttachmentInterface) -> (r: Json)
    ensures
        r@ == spec_interface_to_json(v@),
{
    let mut entries: Vec<(String, Json)> = Vec::new();
    entries.push(("name".to_owned(), Json::Str(v.name.clone())));
    match &v.mac {
        Some(s) => {
            entries.push(("mac".to_owned(), Json::Str(s.clone())));
        },
        None => {},
    }
    match &v.mtu {
        Some(u) => {
            entries.push(("mtu".to_owned(), Json::Num(u32_to_string(*u))));
        },
        None => {},
    }
    match &v.sandbox {
        Some(s) => {
            entries.push(("sandbox".to_owned(), Json::Str(s.clone())));
        },
        None => {},
    }
    match &v.socket_path {
        Some(s) => {
            entries.push(("socketPath".to_owned(), Json::Str(s.clone())));
        },
        None => {},
    }
    match &v.pci_id {
        Some(s) => {
            entries.push(("pciID".to_owned(), Json::Str(s.clone())));
        },
        None => {},
    }
    proof {
        assert(spec_entries_view(entries@) =~= seq![("name"@, JsonV::Str(v@.name))]
            + spec_opt_str_entry("mac"@, v@.mac) + spec_opt_num_entry("mtu"@, v@.mtu)
            + spec_opt_str_entry("sandbox"@, v@.sandbox) + spec_opt_str_entry(
            "socketPath"@,
            v@.socket_path,
        ) + spec_opt_str_entry("pciID"@, v@.pci_id));
    }
    Json::Obj(entries)
}

/// Prints one IP assignment as a JSON value.
fn ip_to_json(v: &CniAttachmentIp) -> (r: Json)
    ensures
        r@ == spec_ip_to_json(v@),
{
    let mut entries: Vec<(String, Json)> = Vec::new();
    entries.push(("address".to_owned(), Json::Str(v.address.clone())));
    entries.push(("gateway".to_owned(), Json::Str(v.gateway.clone())));
    entries.push(("interface".to_owned(), Json::Num(u32_to_string(v.interface))));
    proof {
        assert(spec_entries_view(entries@) =~= seq![
            ("address"@, JsonV::Str(v@.address)),
            ("gateway"@, JsonV::Str(v@.gateway)),
            ("interface"@, JsonV::Num(spec_dec_digits(v@.interface as nat))),
        ]);
    }
    Json::Obj(entries)
}

/// Prints one route as a JSON value.
fn route_to_json(v: &CniAttachmentRoute) -> (r: Json)
    ensures
        r@ == spec_route_to_json(v@),
{
    let mut entries: Vec<(String, Json)> = Vec::new();
    entries.push(("dst".to_owned(), Json::Str(v.dst.clone())));
    match &v.gw {
        Some(s) => {
            entries.push(("gw".to_owned(), Json::Str(s.clone())));
        },
        None => {},
    }
    match &v.mtu {
        Some(u) => {
            entries.push(("mtu".to_owned(), Json::Num(u32_to_string(*u))));
        },
        None => {},
    }
    match &v.advmss {
        Some(u) => {
            entries.push(("advmss".to_owned(), Json::Num(u32_to_string(*u))));
        },
        None => {},
    }
    match &v.priority {
        Some(u) => {
            entries.push(("priority".to_owned(), Json::Num(u32_to_string(*u))));
        },
        None => {},
    }
    match &v.table {
        Some(u) => {
            entries.push(("table".to_owned(), Json::Num(u32_to_string(*u))));
        },
        None => {},
    }
    match &v.scope {
        Some(u) => {
            entries.push(("scope".to_owned(), Json::Num(u32_to_string(*u))));
        },
        None => {},
    }
    proof {
        assert(spec_entries_view(entries@) =~= seq![("dst"@, JsonV::Str(v@.dst))]
            + spec_opt_str_entry("gw"@, v@.gw) + spec_opt_num_entry("mtu"@, v@.mtu)
            + spec_opt_num_entry("advmss"@, v@.advmss) + spec_opt_num_entry(
            "priority"@,
            v@.priority,
        ) + spec_opt_num_entry("table"@, v@.table) + spec_opt_num_entry("scope"@, v@.scope));
    }
    Json::Obj(entries)
}

/// Prints a sequence of strings as JSON values.
fn emit_str_items(items: &Vec<String>) -> (r: Vec<Json>)
    ensures
        spec_elems_view(r@) == spec_emit_items(spec_seq_view(items@), emit_str()),
{
    let mut out: Vec<Json> = Vec::new();
    let n = items.len();
    let mut i: usize = 0;
    while i < n
        invariant
            n == items@.len(),
            0 <= i <= n,
            out@.len() == i,
            forall|k: int|
                0 <= k < i ==> crate::json::json_view(#[trigger] out@[k]) == JsonV::Str(
                    items@[k]@,
                ),
        decreases n - i,
    {
        out.push(Json::Str(items[i].clone()));
        i = i + 1;
    }
    proof {
        assert(spec_elems_view(out@) =~= spec_emit_items(spec_seq_view(items@), emit_str()));
    }
    out
}

/// Prints a DNS record as a JSON value.
fn dns_to_json(v: &CniAttachmentDns) -> (r: Json)
    ensures
        r@ == spec_dns_to_json(v@),
{
    let mut entries: Vec<(String, Json)> = Vec::new();
    entries.push(("nameservers".to_owned(), Json::Arr(emit_str_items(&v.nameservers))));
    match &v.domain {
        Some(s) => {
            entries.push(("domain".to_owned(), Json::Str(s.clone())));
        },
        None => {},
    }
    entries.push(("search".to_owned(), Json::Arr(emit_str_items(&v.search))));
    entries.push(("options".to_owned(), Json::Arr(emit_str_items(&v.options))));
    proof {
        assert(spec_entries_view(entries@) =~= seq![
            ("nameservers"@, JsonV::Arr(spec_emit_items(v@.nameservers, emit_str()))),
        ] + spec_opt_str_entry("domain"@, v@.domain) + seq![
            ("search"@, JsonV::Arr(spec_emit_items(v@.search, emit_str()))),
            ("options"@, JsonV::Arr(spec_emit_items(v@.options, emit_str()))),
        ]);
    }
    Json::Obj(entries)
}

impl CniAttachment {
    /// Prints the attachment as a JSON value, the inverse shape of
    /// `from_json`.
    pub fn to_json(&self) -> (r: Json)
        ensures
            r@ == spec_attachment_to_json(self@),
    {
        let mut interfaces: Vec<Json> = Vec::new();
        let ni = self.interfaces.len();
        let mut i: usize = 0;
        while i < ni
            invariant
                ni == self.interfaces@.len(),
                0 <= i <= ni,
                interfaces@.len() == i,
                forall|k: int|
                    0 <= k < i ==> crate::json::json_view(#[trigger] interfaces@[k])
                        == spec_interface_to_json(self.interfaces@[k]@),
            decreases ni - i,
        {
            interfaces.push(interface_to_json(&self.interfaces[i]));
            i = i + 1;
        }
        let mut ips: Vec<Json> = Vec::new();
        let np = self.ips.len();
        let mut p: usize = 0;
        while p < np
            invariant
                np == self.ips@.len(),
                0 <= p <= np,
                ips@.len() == p,
                forall|k: int|
                    0 <= k < p ==> crate::json::json_view(#[trigger] ips@[k]) == spec_ip_to_json(
                        self.ips@[k]@,
                    ),
            decreases np - p,
        {
            ips.push(ip_to_json(&self.ips[p]));
            p = p + 1;
        }
        let mut routes: Vec<Json> = Vec::new();
        let nr = self.routes.len();
        let mut q: usize = 0;
        while q < nr
            invariant
                nr == self.routes@.len(),
                0 <= q <= nr,
                routes@.len() == q,
                forall|k: int|
                    0 <= k < q ==> crate::json::json_view(#[trigger] routes@[k])
                        == spec_route_to_json(self.routes@[k]@),
            decreases nr - q,
        {
            routes.push(route_to_json(&self.routes[q]));
            q = q + 1;
        }
        let mut entries: Vec<(String, Json)> = Vec::new();
        entries.push(("cniVersion".to_owned(), Json::Str(self.cni_version.as_str().to_owned())));
        proof {
            assert(spec_elems_view(interfaces@) =~= spec_emit_items(
                spec_seq_view(self.interfaces@),
                emit_interface(),
            ));
            assert(spec_elems_view(ips@) =~= spec_emit_items(spec_seq_view(self.ips@), emit_ip()));
            assert(spec_elems_view(routes@) =~= spec_emit_items(
                spec_seq_view(self.routes@),
                emit_route(),
            ));
        }
        entries.push(("interfaces".to_owned(), Json::Arr(interfaces)));
        entries.push(("ips".to_owned(), Json::Arr(ips)));
        entries.push(("routes".to_owned(), Json::Arr(routes)));
        match &self.dns {
            Some(d) => {
                entries.push(("dns".to_owned(), dns_to_json(d)));
            },
            None => {},
        }
        proof {
            assert(spec_entries_view(entries@) =~= seq![
                ("cniVersion"@, JsonV::Str(self@.cni_version)),
                ("interfaces"@, JsonV::Arr(spec_emit_items(self@.interfaces, emit_interface()))),
                ("ips"@, JsonV::Arr(spec_emit_items(self@.ips, emit_ip()))),
                ("routes"@, JsonV::Arr(spec_emit_items(self@.routes, emit_route()))),
            ] + (match self@.dns {
                Option::Some(d) => seq![("dns"@, spec_dns_to_json(d))],
                Option::None => Seq::<(Seq<char>, JsonV)>::empty(),
            }));
        }
        Json::Obj(entries)
    }
}

// --- the attachment round trip ------------------------------------------------

/// An IP assignment the printer can hand back to the reader: valid wire
/// text in both address fields.
pub open spec fn spec_ip_wf(v: CniAttachmentIpV) -> bool {
    is_ip_inet_text(v.address) && spec_is_ip_addr_text(v.gateway)
}

/// A route the printer can hand back to the reader.
pub open spec fn spec_route_wf(v: CniAttachmentRouteV) -> bool {
    is_ip_inet_text(v.dst) && (match v.gw {
        Option::Some(g) => spec_is_ip_addr_text(g),
        Option::None => true,
    })
}

/// A DNS record the printer can hand back to the reader: every nameserver
/// valid bare address text.
pub open spec fn spec_dns_wf(v: CniAttachmentDnsV) -> bool {
    forall|i: int| 0 <= i < v.nameservers.len() ==> spec_is_ip_addr_text(#[trigger] v.nameservers[i])
}

/// An attachment the printer can hand back to the reader: a valid version
/// and valid address text throughout.
pub open spec fn spec_attachment_wf(v: CniAttachmentV) -> bool {
    &&& crate::types::spec_valid_version(v.cni_version)
    &&& forall|i: int| 0 <= i < v.ips.len() ==> spec_ip_wf(#[trigger] v.ips[i])
    &&& forall|i: int| 0 <= i < v.routes.len() ==> spec_route_wf(#[trigger] v.routes[i])
    &&& match v.dns {
        Option::Some(d) => spec_dns_wf(d),
        Option::None => true,
    }
}

proof fn lemma_interface_round_trip(v: CniAttachmentInterfaceV)
    ensures
        spec_interface_from_json(spec_interface_to_json(v)) == Some(v),
{
    reveal_strlit("name");
    reveal_strlit("mac");
    reveal_strlit("mtu");
    reveal_strlit("sandbox");
    reveal_strlit("socketPath");
    reveal_strlit("pciID");
    assert("mac"@ != "mtu"@) by {
        assert("mac"@[1] == 'a' && "mtu"@[1] == 't');
    }
    assert("name"@.len() == 4 && "mac"@.len() == 3 && "mtu"@.len() == 3 && "sandbox"@.len() == 7
        && "socketPath"@.len() == 10 && "pciID"@.len() == 5);
    let ents = seq![("name"@, JsonV::Str(v.name))] + spec_opt_str_entry("mac"@, v.mac)
        + spec_opt_num_entry("mtu"@, v.mtu) + spec_opt_str_entry("sandbox"@, v.sandbox)
        + spec_opt_str_entry("socketPath"@, v.socket_path) + spec_opt_str_entry(
        "pciID"@,
        v.pci_id,
    );
    let m: int = if v.mac is Some {
        1
    } else {
        0
    };
    let t: int = if v.mtu is Some {
        1
    } else {
        0
    };
    let s: int = if v.sandbox is Some {
        1
    } else {
        0
    };
    let p: int = if v.socket_path is Some {
        1
    } else {
        0
    };
    assert(ents[0] == ("name"@, JsonV::Str(v.name)));
    assert(forall|j: int| 0 <= j < ents.len() ==> ((#[trigger] ents[j]).0 == "name"@ ==> j == 0)
        && (ents[j].0 == "mac"@ ==> v.mac is Some && j == 1) && (ents[j].0 == "mtu"@ ==> v.mtu
        is Some && j == 1 + m) && (ents[j].0 == "sandbox"@ ==> v.sandbox is Some && j == 1 + m
        + t) && (ents[j].0 == "socketPath"@ ==> v.socket_path is Some && j == 1 + m + t + s) && (
    ents[j].0 == "pciID"@ ==> v.pci_id is Some && j == 1 + m + t + s + p));
    crate::json::lemma_kv_get_at(ents, "name"@, 0);
    match v.mac {
        Option::Some(x) => {
            assert(ents[1] == ("mac"@, JsonV::Str(x)));
            crate::json::lemma_kv_get_at(ents, "mac"@, 1);
        },
        Option::None => {
            crate::json::lemma_kv_get_absent(ents, "mac"@);
        },
    }
    match v.mtu {
        Option::Some(u) => {
            assert(ents[1 + m] == ("mtu"@, JsonV::Num(spec_dec_digits(u as nat))));
            crate::json::lemma_kv_get_at(ents, "mtu"@, 1 + m);
            crate::strutil::lemma_dec_digits_parse_plain(u as nat, 0xFFFF_FFFF);
        },
        Option::None => {
            crate::json::lemma_kv_get_absent(ents, "mtu"@);
        },
    }
    match v.sandbox {
        Option::Some(x) => {
            assert(ents[1 + m + t] == ("sandbox"@, JsonV::Str(x)));
            crate::json::lemma_kv_get_at(ents, "sandbox"@, 1 + m + t);
        },
        Option::None => {
            crate::json::lemma_kv_get_absent(ents, "sandbox"@);
        },
    }
    match v.socket_path {
        Option::Some(x) => {
            assert(ents[1 + m + t + s] == ("socketPath"@, JsonV::Str(x)));
            crate::json::lemma_kv_get_at(ents, "socketPath"@, 1 + m + t + s);
        },
        Option::None => {
            crate::json::lemma_kv_get_absent(ents, "socketPath"@);
        },
    }
    match v.pci_id {
        Option::Some(x) => {
            assert(ents[1 + m + t + s + p] == ("pciID"@, JsonV::Str(x)));
            crate::json::lemma_kv_get_at(ents, "pciID"@, 1 + m + t + s + p);
        },
        Option::None => {
            crate::json::lemma_kv_get_absent(ents, "pciID"@);
        },
    }
    assert(spec_interface_from_json(JsonV::Obj(ents)) matches Some(q) && q =~= v);
}

proof fn lemma_ip_round_trip(v: CniAttachmentIpV)
    requires
        spec_ip_wf(v),
    ensures
        spec_ip_from_json(spec_ip_to_json(v)) == Some(v),
{
    reveal_strlit("address");
    reveal_strlit("gateway");
    reveal_strlit("interface");
    assert("address"@ != "gateway"@) by {
        assert("address"@[0] == 'a' && "gateway"@[0] == 'g');
    }
    assert("address"@.len() == 7 && "gateway"@.len() == 7 && "interface"@.len() == 9);
    let ents = seq![
        ("address"@, JsonV::Str(v.address)),
        ("gateway"@, JsonV::Str(v.gateway)),
        ("interface"@, JsonV::Num(spec_dec_digits(v.interface as nat))),
    ];
    crate::json::lemma_kv_get_at(ents, "address"@, 0);
    crate::json::lemma_kv_get_at(ents, "gateway"@, 1);
    crate::json::lemma_kv_get_at(ents, "interface"@, 2);
    crate::strutil::lemma_dec_digits_parse_plain(v.interface as nat, 0xFFFF_FFFF);
    assert(spec_ip_from_json(JsonV::Obj(ents)) matches Some(q) && q =~= v);
}

#[verifier::rlimit(100)]
proof fn lemma_route_round_trip(v: CniAttachmentRouteV)
    requires
        spec_route_wf(v),
    ensures
        spec_route_from_json(spec_route_to_json(v)) == Some(v),
{
    reveal_strlit("dst");
    reveal_strlit("gw");
    reveal_strlit("mtu");
    reveal_strlit("advmss");
    reveal_strlit("priority");
    reveal_strlit("table");
    reveal_strlit("scope");
    assert("dst"@ != "mtu"@) by {
        assert("dst"@[0] == 'd' && "mtu"@[0] == 'm');
    }
    assert("table"@ != "scope"@) by {
        assert("table"@[0] == 't' && "scope"@[0] == 's');
    }
    assert("dst"@.len() == 3 && "gw"@.len() == 2 && "mtu"@.len() == 3 && "advmss"@.len() == 6
        && "priority"@.len() == 8 && "table"@.len() == 5 && "scope"@.len() == 5);
    let ents = seq![("dst"@, JsonV::Str(v.dst))] + spec_opt_str_entry("gw"@, v.gw)
        + spec_opt_num_entry("mtu"@, v.mtu) + spec_opt_num_entry("advmss"@, v.advmss)
        + spec_opt_num_entry("priority"@, v.priority) + spec_opt_num_entry("table"@, v.table)
        + spec_opt_num_entry("scope"@, v.scope);
    let g: int = if v.gw is Some {
        1
    } else {
        0
    };
    let t: int = if v.mtu is Some {
        1
    } else {
        0
    };
    let a: int = if v.advmss is Some {
        1
    } else {
        0
    };
    let r: int = if v.priority is Some {
        1
    } else {
        0
    };
    let b: int = if v.table is Some {
        1
    } else {
        0
    };
    assert(ents[0] == ("dst"@, JsonV::Str(v.dst)));
    assert(forall|j: int| 0 <= j < ents.len() ==> ((#[trigger] ents[j]).0 == "dst"@ ==> j == 0)
        && (ents[j].0 == "gw"@ ==> v.gw is Some && j == 1) && (ents[j].0 == "mtu"@ ==> v.mtu
        is Some && j == 1 + g) && (ents[j].0 == "advmss"@ ==> v.advmss is Some && j == 1 + g + t)
        && (ents[j].0 == "priority"@ ==> v.priority is Some && j == 1 + g + t + a) && (ents[j].0
        == "table"@ ==> v.table is Some && j == 1 + g + t + a + r) && (ents[j].0 == "scope"@
        ==> v.scope is Some && j == 1 + g + t + a + r + b));
    crate::json::lemma_kv_get_at(ents, "dst"@, 0);
    match v.gw {
        Option::Some(x) => {
            assert(ents[1] == ("gw"@, JsonV::Str(x)));
            crate::json::lemma_kv_get_at(ents, "gw"@, 1);
        },
        Option::None => {
            crate::json::lemma_kv_get_absent(ents, "gw"@);
        },
    }
    match v.mtu {
        Option::Some(u) => {
            assert(ents[1 + g] == ("mtu"@, JsonV::Num(spec_dec_digits(u as nat))));
            crate::json::lemma_kv_get_at(ents, "mtu"@, 1 + g);
            crate::strutil::lemma_dec_digits_parse_plain(u as nat, 0xFFFF_FFFF);
        },
        Option::None => {
            crate::json::lemma_kv_get_absent(ents, "mtu"@);
        },
    }
    match v.advmss {
        Option::Some(u) => {
            assert(ents[1 + g + t] == ("advmss"@, JsonV::Num(spec_dec_digits(u as nat))));
            crate::json::lemma_kv_get_at(ents, "advmss"@, 1 + g + t);
            crate::strutil::lemma_dec_digits_parse_plain(u as nat, 0xFFFF_FFFF);
        },
        Option::None => {
            crate::json::lemma_kv_get_absent(ents, "advmss"@);
        },
    }
    match v.priority {
        Option::Some(u) => {
            assert(ents[1 + g + t + a] == ("priority"@, JsonV::Num(spec_dec_digits(u as nat))));
            crate::json::lemma_kv_get_at(ents, "priority"@, 1 + g + t + a);
            crate::strutil::lemma_dec_digits_parse_plain(u as nat, 0xFFFF_FFFF);
        },
        Option::None => {
            crate::json::lemma_kv_get_absent(ents, "priority"@);
        },
    }
    match v.table {
        Option::Some(u) => {
            assert(ents[1 + g + t + a + r] == ("table"@, JsonV::Num(spec_dec_digits(u as nat))));
            crate::json::lemma_kv_get_at(ents, "table"@, 1 + g + t + a + r);
            crate::strutil::lemma_dec_digits_parse_plain(u as nat, 0xFFFF_FFFF);
        },
        Option::None => {
            crate::json::lemma_kv_get_absent(ents, "table"@);
        },
    }
    match v.scope {
        Option::Some(u) => {
            assert(ents[1 + g + t + a + r + b] == ("scope"@, JsonV::Num(
                spec_dec_digits(u as nat),
            )));
            crate::json::lemma_kv_get_at(ents, "scope"@, 1 + g + t + a + r + b);
            crate::strutil::lemma_dec_digits_parse_plain(u as nat, 0xFFFF_FFFF);
        },
        Option::None => {
            crate::json::lemma_kv_get_absent(ents, "scope"@);
        },
    }
    assert(spec_route_from_json(JsonV::Obj(ents)) matches Some(q) && q =~= v);
}

proof fn lemma_str_items_round_trip(xs: Seq<Seq<char>>)
    ensures
        spec_parse_items(spec_emit_items(xs, emit_str()), item_str()) == Some(xs),
    decreases xs.len(),
{
    let es = spec_emit_items(xs, emit_str());
    if xs.len() == 0 {
        assert(spec_parse_items(es, item_str()) == Some(Seq::<Seq<char>>::empty()));
        assert(Seq::<Seq<char>>::empty() =~= xs);
    } else {
        lemma_str_items_round_trip(xs.drop_last());
        assert(es.drop_last() =~= spec_emit_items(xs.drop_last(), emit_str()));
        assert(es.last() == JsonV::Str(xs.last()));
        assert(spec_parse_items(es, item_str()) == Some(xs.drop_last().push(xs.last())));
        assert(xs.drop_last().push(xs.last()) =~= xs);
    }
}

proof fn lemma_addr_items_round_trip(xs: Seq<Seq<char>>)
    requires
        forall|i: int| 0 <= i < xs.len() ==> spec_is_ip_addr_text(#[trigger] xs[i]),
    ensures
        spec_parse_items(spec_emit_items(xs, emit_str()), item_addr()) == Some(xs),
    decreases xs.len(),
{
    let es = spec_emit_items(xs, emit_str());
    if xs.len() == 0 {
        assert(spec_parse_items(es, item_addr()) == Some(Seq::<Seq<char>>::empty()));
        assert(Seq::<Seq<char>>::empty() =~= xs);
    } else {
        assert(forall|i: int|
            0 <= i < xs.drop_last().len() ==> spec_is_ip_addr_text(
                #[trigger] xs.drop_last()[i],
            )) by {
            assert(forall|i: int| 0 <= i < xs.drop_last().len() ==> xs.drop_last()[i]
                == #[trigger] xs[i]);
        }
        lemma_addr_items_round_trip(xs.drop_last());
        assert(es.drop_last() =~= spec_emit_items(xs.drop_last(), emit_str()));
        assert(es.last() == JsonV::Str(xs.last()));
        assert(spec_is_ip_addr_text(xs.last()));
        assert(spec_parse_items(es, item_addr()) == Some(xs.drop_last().push(xs.last())));
        assert(xs.drop_last().push(xs.last()) =~= xs);
    }
}

proof fn lemma_dns_round_trip(v: CniAttachmentDnsV)
    requires
        spec_dns_wf(v),
    ensures
        spec_dns_from_json(spec_dns_to_json(v)) == Some(v),
{
    reveal_strlit("nameservers");
    reveal_strlit("domain");
    reveal_strlit("search");
    reveal_strlit("options");
    assert("domain"@ != "search"@) by {
        assert("domain"@[0] == 'd' && "search"@[0] == 's');
    }
    assert("nameservers"@.len() == 11 && "domain"@.len() == 6 && "search"@.len() == 6
        && "options"@.len() == 7);
    let ents = seq![("nameservers"@, JsonV::Arr(spec_emit_items(v.nameservers, emit_str())))]
        + spec_opt_str_entry("domain"@, v.domain) + seq![
        ("search"@, JsonV::Arr(spec_emit_items(v.search, emit_str()))),
        ("options"@, JsonV::Arr(spec_emit_items(v.options, emit_str()))),
    ];
    let d: int = if v.domain is Some {
        1
    } else {
        0
    };
    assert(ents[0] == ("nameservers"@, JsonV::Arr(spec_emit_items(v.nameservers, emit_str()))));
    assert(ents[1 + d] == ("search"@, JsonV::Arr(spec_emit_items(v.search, emit_str()))));
    assert(ents[2 + d] == ("options"@, JsonV::Arr(spec_emit_items(v.options, emit_str()))));
    assert(forall|j: int| 0 <= j < ents.len() ==> ((#[trigger] ents[j]).0 == "nameservers"@ ==> j
        == 0) && (ents[j].0 == "domain"@ ==> v.domain is Some && j == 1) && (ents[j].0
        == "search"@ ==> j == 1 + d) && (ents[j].0 == "options"@ ==> j == 2 + d));
    crate::json::lemma_kv_get_at(ents, "nameservers"@, 0);
    match v.domain {
        Option::Some(x) => {
            assert(ents[1] == ("domain"@, JsonV::Str(x)));
            crate::json::lemma_kv_get_at(ents, "domain"@, 1);
        },
        Option::None => {
            crate::json::lemma_kv_get_absent(ents, "domain"@);
        },
    }
    crate::json::lemma_kv_get_at(ents, "search"@, 1 + d);
    crate::json::lemma_kv_get_at(ents, "options"@, 2 + d);
    lemma_addr_items_round_trip(v.nameservers);
    lemma_str_items_round_trip(v.search);
    lemma_str_items_round_trip(v.options);
    assert(spec_dns_from_json(JsonV::Obj(ents)) matches Some(q) && q =~= v);
}

proof fn lemma_interface_items_round_trip(xs: Seq<CniAttachmentInterfaceV>)
    ensures
        spec_parse_items(spec_emit_items(xs, emit_interface()), item_interface()) == Some(xs),
    decreases xs.len(),
{
    let es = spec_emit_items(xs, emit_interface());
    if xs.len() == 0 {
        assert(spec_parse_items(es, item_interface()) == Some(
            Seq::<CniAttachmentInterfaceV>::empty(),
        ));
        assert(Seq::<CniAttachmentInterfaceV>::empty() =~= xs);
    } else {
        lemma_interface_items_round_trip(xs.drop_last());
        lemma_interface_round_trip(xs.last());
        assert(es.drop_last() =~= spec_emit_items(xs.drop_last(), emit_interface()));
        assert(es.last() == spec_interface_to_json(xs.last()));
        assert(spec_parse_items(es, item_interface()) == Some(xs.drop_last().push(xs.last())));
        assert(xs.drop_last().push(xs.last()) =~= xs);
    }
}

proof fn lemma_ip_items_round_trip(xs: Seq<CniAttachmentIpV>)
    requires
        forall|i: int| 0 <= i < xs.len() ==> spec_ip_wf(#[trigger] xs[i]),
    ensures
        spec_parse_items(spec_emit_items(xs, emit_ip()), item_ip()) == Some(xs),
    decreases xs.len(),
{
    let es = spec_emit_items(xs, emit_ip());
    if xs.len() == 0 {
        assert(spec_parse_items(es, item_ip()) == Some(Seq::<CniAttachmentIpV>::empty()));
        assert(Seq::<CniAttachmentIpV>::empty() =~= xs);
    } else {
        assert(forall|i: int| 0 <= i < xs.drop_last().len() ==> spec_ip_wf(
            #[trigger] xs.drop_last()[i],
        )) by {
            assert(forall|i: int| 0 <= i < xs.drop_last().len() ==> xs.drop_last()[i]
                == #[trigger] xs[i]);
        }
        lemma_ip_items_round_trip(xs.drop_last());
        lemma_ip_round_trip(xs.last());
        assert(es.drop_last() =~= spec_emit_items(xs.drop_last(), emit_ip()));
        assert(es.last() == spec_ip_to_json(xs.last()));
        assert(spec_parse_items(es, item_ip()) == Some(xs.drop_last().push(xs.last())));
        assert(xs.drop_last().push(xs.last()) =~= xs);
    }
}

proof fn lemma_route_items_round_trip(xs: Seq<CniAttachmentRouteV>)
    requires
        forall|i: int| 0 <= i < xs.len() ==> spec_route_wf(#[trigger] xs[i]),
    ensures
        spec_parse_items(spec_emit_items(xs, emit_route()), item_route()) == Some(xs),
    decreases xs.len(),
{
    let es = spec_emit_items(xs, emit_route());
    if xs.len() == 0 {
        assert(spec_parse_items(es, item_route()) == Some(Seq::<CniAttachmentRouteV>::empty()));
        assert(Seq::<CniAttachmentRouteV>::empty() =~= xs);
    } else {
        assert(forall|i: int| 0 <= i < xs.drop_last().len() ==> spec_route_wf(
            #[trigger] xs.drop_last()[i],
        )) by {
            assert(forall|i: int| 0 <= i < xs.drop_last().len() ==> xs.drop_last()[i]
                == #[trigger] xs[i]);
        }
        lemma_route_items_round_trip(xs.drop_last());
        lemma_route_round_trip(xs.last());
        assert(es.drop_last() =~= spec_emit_items(xs.drop_last(), emit_route()));
        assert(es.last() == spec_route_to_json(xs.last()));
        assert(spec_parse_items(es, item_route()) == Some(xs.drop_last().push(xs.last())));
        assert(xs.drop_last().push(xs.last()) =~= xs);
    }
}

/// Printing a well-formed attachment and reading the result gives the
/// attachment back: the wire loses no field.
pub proof fn lemma_attachment_round_trip(v: CniAttachmentV)
    requires
        spec_attachment_wf(v),
    ensures
        spec_attachment_from_json(spec_attachment_to_json(v)) == Some(v),
{
    reveal_strlit("cniVersion");
    reveal_strlit("interfaces");
    reveal_strlit("ips");
    reveal_strlit("routes");
    reveal_strlit("dns");
    assert("cniVersion"@ != "interfaces"@) by {
        assert("cniVersion"@[0] == 'c' && "interfaces"@[0] == 'i');
    }
    assert("ips"@ != "dns"@) by {
        assert("ips"@[0] == 'i' && "dns"@[0] == 'd');
    }
    assert("cniVersion"@.len() == 10 && "interfaces"@.len() == 10 && "ips"@.len() == 3
        && "routes"@.len() == 6 && "dns"@.len() == 3);
    let ents = seq![
        ("cniVersion"@, JsonV::Str(v.cni_version)),
        ("interfaces"@, JsonV::Arr(spec_emit_items(v.interfaces, emit_interface()))),
        ("ips"@, JsonV::Arr(spec_emit_items(v.ips, emit_ip()))),
        ("routes"@, JsonV::Arr(spec_emit_items(v.routes, emit_route()))),
    ] + (match v.dns {
        Option::Some(d) => seq![("dns"@, spec_dns_to_json(d))],
        Option::None => Seq::<(Seq<char>, JsonV)>::empty(),
    });
    assert(ents[0] == ("cniVersion"@, JsonV::Str(v.cni_version)));
    assert(ents[1] == ("interfaces"@, JsonV::Arr(spec_emit_items(v.interfaces, emit_interface()))));
    assert(ents[2] == ("ips"@, JsonV::Arr(spec_emit_items(v.ips, emit_ip()))));
    assert(ents[3] == ("routes"@, JsonV::Arr(spec_emit_items(v.routes, emit_route()))));
    assert(forall|j: int| 0 <= j < ents.len() ==> ((#[trigger] ents[j]).0 == "cniVersion"@ ==> j
        == 0) && (ents[j].0 == "interfaces"@ ==> j == 1) && (ents[j].0 == "ips"@ ==> j == 2) && (
    ents[j].0 == "routes"@ ==> j == 3) && (ents[j].0 == "dns"@ ==> v.dns is Some && j == 4));
    crate::json::lemma_kv_get_at(ents, "cniVersion"@, 0);
    crate::json::lemma_kv_get_at(ents, "interfaces"@, 1);
    crate::json::lemma_kv_get_at(ents, "ips"@, 2);
    crate::json::lemma_kv_get_at(ents, "routes"@, 3);
    match v.dns {
        Option::Some(d) => {
            assert(ents[4] == ("dns"@, spec_dns_to_json(d)));
            crate::json::lemma_kv_get_at(ents, "dns"@, 4);
            lemma_dns_round_trip(d);
            // A DNS record always prints as an object, never as null.
            assert(spec_dns_to_json(d) is Obj);
        },
        Option::None => {
            crate::json::lemma_kv_get_absent(ents, "dns"@);
        },
    }
    crate::types::lemma_valid_version_parses(v.cni_version);
    lemma_interface_items_round_trip(v.interfaces);
    lemma_ip_items_round_trip(v.ips);
    lemma_route_items_round_trip(v.routes);
    assert(spec_attachment_from_json(JsonV::Obj(ents)) matches Some(q) && q =~= v);
}

// --- the version object ----------------------------------------------------------

/// A plugin's answer to `VERSION`.
#[derive(Debug, Clone)]
pub struct CniVersionObject {
    pub cni_version: CniVersion,
    pub supported_versions: Vec<CniVersion>,
}

/// The shape of a version object.
#[verifier::ext_equal]
pub struct CniVersionObjectV {
    pub cni_version: Seq<char>,
    pub supported_versions: Seq<Seq<char>>,
}

impl View for CniVersionObject {
    type V = CniVersionObjectV;

    open spec fn view(&self) -> CniVersionObjectV {
        CniVersionObjectV {
            cni_version: self.cni_version@,
            supported_versions: spec_seq_view(self.supported_versions@),
        }
    }
}

/// The strict reading of a version object: a valid `cniVersion` and a
/// required `supportedVersions` array of valid versions.
pub open spec fn spec_version_object_from_json(j: JsonV) -> Option<CniVersionObjectV> {
    match j {
        JsonV::Obj(m) => {
            match (spec_field_req_str(m, "cniVersion"@), kv_get(m, "supportedVersions"@)) {
                (Option::Some(vs), Option::Some(JsonV::Arr(es))) => match (
                    spec_version_parse(vs),
                    spec_parse_items(es, item_version()),
                ) {
                    (Result::Ok(ver), Option::Some(sup)) => Option::Some(
                        CniVersionObjectV { cni_version: ver, supported_versions: sup },
                    ),
                    _ => Option::None,
                },
                _ => Option::None,
            }
        },
        _ => Option::None,
    }
}

impl CniVersionObject {
    /// Reads a version object out of a JSON value, strictly.
    pub fn from_json(j: &Json) -> (r: Option<CniVersionObject>)
        ensures
            match r {
                Some(v) => spec_version_object_from_json(j@) == Some(v@),
                None => spec_version_object_from_json(j@) is None,
            },
    {
        match j {
            Json::Obj(entries) => {
                let vs = match field_req_str(entries, "cniVersion") {
                    Some(s) => s,
                    None => {
                        return None;
                    },
                };
                let cni_version = match CniVersion::parse(vs.as_str()) {
                    Ok(v) => v,
                    Err(_) => {
                        return None;
                    },
                };
                let supported_versions = match obj_get(entries, "supportedVersions") {
                    Some(g) => match g {
                        Json::Arr(es) => match parse_version_items(es) {
                            Some(v) => v,
                            None => {
                                return None;
                            },
                        },
                        _ => {
                            return None;
                        },
                    },
                    None => {
                        return None;
                    },
                };
                Some(CniVersionObject { cni_version, supported_versions })
            },
            _ => None,
        }
    }
}

// --- the plugin error -------------------------------------------------------------

/// A plugin's structured failure report.
#[derive(Debug, Clone)]
pub struct CniError {
    pub cni_version: Option<String>,
    pub code: u16,
    pub msg: String,
    pub details: Option<String>,
}

/// The shape of a plugin error.
#[verifier::ext_equal]
pub struct CniErrorV {
    pub cni_version: Option<Seq<char>>,
    pub code: u16,
    pub msg: Seq<char>,
    pub details: Option<Seq<char>>,
}

impl View for CniError {
    type V = CniErrorV;

    open spec fn view(&self) -> CniErrorV {
        CniErrorV {
            cni_version: spec_opt_view(self.cni_version),
            code: self.code,
            msg: self.msg@,
            details: spec_opt_view(self.details),
        }
    }
}

/// The reading of a plugin error: `code` and `msg` required, the version
/// text and details optional and unvalidated.
pub open spec fn spec_error_from_json(j: JsonV) -> Option<CniErrorV> {
    match j {
        JsonV::Obj(m) => {
            match (
                spec_field_opt_str(m, "cniVersion"@),
                spec_field_req_uint(m, "code"@, 0xFFFF),
                spec_field_req_str(m, "msg"@),
                spec_field_opt_str(m, "details"@),
            ) {
                (
                    Result::Ok(cni_version),
                    Option::Some(code),
                    Option::Some(msg),
                    Result::Ok(details),
                ) => Option::Some(CniErrorV { cni_version, code: code as u16, msg, details }),
                _ => Option::None,
            }
        },
        _ => Option::None,
    }
}

impl CniError {
    /// Reads a plugin error out of a JSON value.
    pub fn from_json(j: &Json) -> (r: Option<CniError>)
        ensures
            match r {
                Some(v) => spec_error_from_json(j@) == Some(v@),
                None => spec_error_from_json(j@) is None,
            },
    {
        match j {
            Json::Obj(entries) => {
                let cni_version = match field_opt_str(entries, "cniVersion") {
                    Ok(v) => v,
                    Err(_) => {
                        return None;
                    },
                };
                let code = match field_req_u16(entries, "code") {
                    Some(v) => v,
                    None => {
                        return None;
                    },
                };
                let msg = match field_req_str(entries, "msg") {
                    Some(s) => s,
                    None => {
                        return None;
                    },
                };
                let details = match field_opt_str(entries, "details") {
                    Ok(v) => v,
                    Err(_) => {
                        return None;
                    },
                };
                Some(CniError { cni_version, code, msg, details })
            },
            _ => None,
        }
    }
}

// --- the valid attachment (for garbage collection) ---------------------------------

/// One attachment a `GC` call declares still valid.
#[derive(Debug, Clone)]
pub struct CniValidAttachment {
    pub container_id: String,
    pub interface_name: String,
}

/// The shape of a valid attachment.
#[verifier::ext_equal]
pub struct CniValidAttachmentV {
    pub container_id: Seq<char>,
    pub interface_name: Seq<char>,
}

impl View for CniValidAttachment {
    type V = CniValidAttachmentV;

    open spec fn view(&self) -> CniValidAttachmentV {
        CniValidAttachmentV {
            container_id: self.container_id@,
            interface_name: self.interface_name@,
        }
    }
}

/// The printing of a valid attachment: the wire keys `containerID` and
/// `ifname`.
pub open spec fn spec_valid_attachment_to_json(v: CniValidAttachmentV) -> JsonV {
    JsonV::Obj(
        seq![
            ("containerID"@, JsonV::Str(v.container_id)),
            ("ifname"@, JsonV::Str(v.interface_name)),
        ],
    )
}

impl CniValidAttachment {
    /// Prints the valid attachment as a JSON value.
    pub fn to_json(&self) -> (r: Json)
        ensures
            r@ == spec_valid_attachment_to_json(self@),
    {
        let mut entries: Vec<(String, Json)> = Vec::new();
        entries.push(("containerID".to_owned(), Json::Str(self.container_id.clone())));
        entries.push(("ifname".to_owned(), Json::Str(self.interface_name.clone())));
        proof {
            assert(spec_entries_view(entries@) =~= seq![
                ("containerID"@, JsonV::Str(self@.container_id)),
                ("ifname"@, JsonV::Str(self@.interface_name)),
            ]);
        }
        Json::Obj(entries)
    }
}

} // verus!

