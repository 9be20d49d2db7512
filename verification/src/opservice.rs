//! systemd services: the listing of service units and the operations on
//! them, with unit names checked before they reach `systemctl`.
use vstd::prelude::*;
use crate::text::{chars_of, join, join_from, lines, lines_of, string_of, string_views, views, words, words_of};

verus! {

/// A systemd service unit.
pub struct ServiceInfo {
    pub name: String,
    pub load: String,
    pub active: String,
    pub sub: String,
    pub description: String,
}

/// Operation on a service.
#[derive(Clone, Copy, PartialEq, Eq, Debug, Structural)]
pub enum Action {
    Start,
    Stop,
    Restart,
    Reload,
}

/// Why a service request was refused.
#[derive(Clone, Copy, PartialEq, Eq, Debug, Structural)]
pub enum ServiceError {
    /// The unit name was rejected.
    BadName,
}

/// The `systemctl` verb of an operation.
pub open spec fn action_word(a: Action) -> Seq<char> {
    match a {
        Action::Start => "start"@,
        Action::Stop => "stop"@,
        Action::Restart => "restart"@,
        Action::Reload => "reload"@,
    }
}

impl Action {
    /// The verb, used both for `systemctl <verb>` and in the audit log.
    pub fn as_str(&self) -> (s: &'static str)
        ensures
            s@ == action_word(*self),
    {
        match self {
            Action::Start => "start",
            Action::Stop => "stop",
            Action::Restart => "restart",
            Action::Reload => "reload",
        }
    }
}

/// A character of a unit name.
pub open spec fn unit_char(c: char) -> bool {
    ('0' <= c <= '9') || ('a' <= c <= 'z') || ('A' <= c <= 'Z') || c == '.' || c == '@' || c == '-' || c == '_'
}

/// A unit name: 1 to 128 characters from `unit_char`.
pub open spec fn valid_unit(s: Seq<char>) -> bool {
    &&& 0 < s.len() <= 128
    &&& forall|i: int| 0 <= i < s.len() ==> unit_char(#[trigger] s[i])
}

/// What a unit name may be: 1 to 128 characters, each an ASCII letter or
/// digit or one of `. @ - _`. So `php8.2-fpm.service`,
/// `systemd-journald.service` and `getty@tty1.service` pass, and names with
/// whitespace, `/` or shell characters do not.
pub proof fn law_unit_names(s: Seq<char>)
    ensures
        valid_unit(s) <==> {
            &&& 1 <= s.len() <= 128
            &&& forall|i: int|
                0 <= i < s.len() ==> {
                    let c = #[trigger] s[i];
                    ||| ('a' <= c && c <= 'z')
                    ||| ('A' <= c && c <= 'Z')
                    ||| ('0' <= c && c <= '9')
                    ||| c == '.'
                    ||| c == '@'
                    ||| c == '-'
                    ||| c == '_'
                }
        },
{
}

/// Whether `name` is a valid unit name.
pub fn unit_ok(name: &str) -> (b: bool)
    ensures
        b == valid_unit(name@),
{
    let v = chars_of(name);
    if v.len() == 0 || v.len() > 128 {
        return false;
    }
    let mut i: usize = 0;
    while i < v.len()
        invariant
            i <= v@.len(),
            v@ == name@,
            forall|j: int| 0 <= j < i ==> unit_char(#[trigger] v@[j]),
        decreases v@.len() - i,
    {
        let c = v[i];
        if !(('0' <= c && c <= '9') || ('a' <= c && c <= 'z') || ('A' <= c && c <= 'Z') || c == '.' || c == '@'
            || c == '-' || c == '_') {
            assert(!unit_char(name@[i as int]));
            return false;
        }
        i = i + 1;
    }
    true
}

/// The `systemctl` arguments of an operation on a service.
pub fn action_args(name: &str, act: Action) -> (r: Result<Vec<String>, ServiceError>)
    ensures
        !valid_unit(name@) ==> r == Err::<Vec<String>, ServiceError>(ServiceError::BadName),
        valid_unit(name@) ==> (r matches Ok(v) && string_views(v@) == seq![action_word(act), name@]),
{
    if !unit_ok(name) {
        return Err(ServiceError::BadName);
    }
    let mut v: Vec<String> = Vec::new();
    v.push(act.as_str().to_owned());
    v.push(name.to_owned());
    assert(string_views(v@) =~= seq![action_word(act), name@]);
    Ok(v)
}

/// The fields of a service: name, load, active, sub, description.
pub type ServiceItem = (Seq<char>, Seq<char>, Seq<char>, Seq<char>, Seq<char>);

pub open spec fn service_view(s: ServiceInfo) -> ServiceItem {
    (s.name@, s.load@, s.active@, s.sub@, s.description@)
}

pub open spec fn service_views(ss: Seq<ServiceInfo>) -> Seq<ServiceItem> {
    ss.map_values(|s: ServiceInfo| service_view(s))
}

/// The services of the plain `systemctl list-units` listing: lines of at
/// least four words `unit load active sub`, the rest being the description
/// (its words joined by single spaces).
pub open spec fn text_services(ls: Seq<Seq<char>>) -> Seq<ServiceItem>
    decreases ls.len(),
{
    if ls.len() == 0 {
        Seq::empty()
    } else {
        let r = text_services(ls.drop_last());
        let w = words(ls.last());
        if w.len() >= 4 {
            r.push((w[0], w[1], w[2], w[3], join(w.skip(4), " "@)))
        } else {
            r
        }
    }
}

/// The services of the plain-text listing (for `systemctl` without JSON
/// output).
pub fn services_from_text(text: &str) -> (list: Vec<ServiceInfo>)
    ensures
        service_views(list@) == text_services(lines(text@)),
{
    let cv = chars_of(text);
    let ls = lines_of(&cv);
    let ghost all = views(ls@);
    let sp = chars_of(" ");
    let mut list: Vec<ServiceInfo> = Vec::new();
    let mut i: usize = 0;
    assert(all.take(0) =~= Seq::<Seq<char>>::empty());
    assert(service_views(list@) =~= Seq::<ServiceItem>::empty());
    while i < ls.len()
        invariant
            i <= ls@.len(),
            all == views(ls@),
            all == lines(text@),
            sp@ == " "@,
            service_views(list@) == text_services(all.take(i as int)),
        decreases ls@.len() - i,
    {
        assert(all.take(i + 1).drop_last() =~= all.take(i as int));
        assert(all.take(i + 1).last() == ls@[i as int]@);
        let w = words_of(&ls[i]);
        if w.len() >= 4 {
            let ghost wv = views(w@);
            assert(wv[0] == w@[0]@ && wv[1] == w@[1]@ && wv[2] == w@[2]@ && wv[3] == w@[3]@);
            let desc = join_from(&w, 4, &sp);
            let s = ServiceInfo {
                name: string_of(&w[0]),
                load: string_of(&w[1]),
                active: string_of(&w[2]),
                sub: string_of(&w[3]),
                description: string_of(&desc),
            };
            let ghost before = service_views(list@);
            list.push(s);
            assert(service_views(list@) =~= before.push(service_view(s)));
        }
        i = i + 1;
    }
    assert(all.take(ls@.len() as int) =~= all);
    list
}

/// Number of elements of the JSON array `bytes` as
/// `serde_json::from_slice::<Vec<Value>>` reads it; 0 when it does not
/// parse.
pub uninterp spec fn json_array_len(bytes: Seq<u8>) -> nat;

/// The string member `key` of element `i` of the JSON array `bytes`.
pub uninterp spec fn json_array_str_member(bytes: Seq<u8>, i: int, key: Seq<char>) -> Option<Seq<char>>;

/// Reads `bytes` with `serde_json::from_slice::<Vec<serde_json::Value>>`
/// (no elements when it fails) and takes the string member `key` of each
/// element (`Value::get`, then the `Value::String` case). Trusted: one
/// result per element, each as `json_array_str_member` names it; what JSON
/// text parses to is not stated here.
#[verifier::external_body]
fn json_array_members(bytes: &[u8], key: &str) -> (r: Vec<Option<String>>)
    ensures
        r@.len() == json_array_len(bytes@),
        forall|i: int|
            0 <= i < r@.len() ==> match #[trigger] r@[i] {
                Some(s) => json_array_str_member(bytes@, i, key@) == Some(s@),
                None => json_array_str_member(bytes@, i, key@) is None,
            },
{
    let arr = serde_json::from_slice::<Vec<serde_json::Value>>(bytes).unwrap_or_default();
    let mut out = Vec::new();
    for v in arr.iter() {
        out.push(
            match v.get(key) {
                Some(serde_json::Value::String(s)) => Some(s.clone()),
                _ => None,
            },
        );
    }
    out
}

pub open spec fn opt_view(o: Option<String>) -> Option<Seq<char>> {
    match o {
        Some(s) => Some(s@),
        None => None,
    }
}

pub open spec fn or_empty(o: Option<Seq<char>>) -> Seq<char> {
    match o {
        Some(s) => s,
        None => Seq::empty(),
    }
}

/// The services described by the members of the elements of the JSON
/// listing: the elements with a `unit` name, a missing member reading as
/// empty.
pub open spec fn member_services(
    unit: Seq<Option<Seq<char>>>,
    load: Seq<Option<Seq<char>>>,
    active: Seq<Option<Seq<char>>>,
    sub: Seq<Option<Seq<char>>>,
    desc: Seq<Option<Seq<char>>>,
) -> Seq<ServiceItem>
    decreases unit.len(),
{
    if unit.len() == 0 {
        Seq::empty()
    } else {
        let n = (unit.len() - 1) as int;
        let r = member_services(unit.drop_last(), load, active, sub, desc);
        match unit.last() {
            Some(u) => r.push((u, or_empty(load[n]), or_empty(active[n]), or_empty(sub[n]), or_empty(desc[n]))),
            None => r,
        }
    }
}

pub open spec fn opt_views(v: Seq<Option<String>>) -> Seq<Option<Seq<char>>> {
    v.map_values(|o: Option<String>| opt_view(o))
}

fn opt_string(o: &Option<String>) -> (s: String)
    ensures
        s@ == or_empty(opt_view(*o)),
{
    match o {
        Some(x) => x.as_str().to_owned(),
        None => String::new(),
    }
}

/// The services of the JSON listing, given the members `unit`, `load`,
/// `active`, `sub` and `description` of each element.
pub fn services_from_members(
    unit: &Vec<Option<String>>,
    load: &Vec<Option<String>>,
    active: &Vec<Option<String>>,
    sub: &Vec<Option<String>>,
    desc: &Vec<Option<String>>,
) -> (list: Vec<ServiceInfo>)
    requires
        load@.len() == unit@.len(),
        active@.len() == unit@.len(),
        sub@.len() == unit@.len(),
        desc@.len() == unit@.len(),
    ensures
        service_views(list@) == member_services(
            opt_views(unit@),
            opt_views(load@),
            opt_views(active@),
            opt_views(sub@),
            opt_views(desc@),
        ),
{
    let ghost u = opt_views(unit@);
    let ghost l = opt_views(load@);
    let ghost a = opt_views(active@);
    let ghost s = opt_views(sub@);
    let ghost d = opt_views(desc@);
    let mut list: Vec<ServiceInfo> = Vec::new();
    let mut i: usize = 0;
    assert(u.take(0) =~= Seq::<Option<Seq<char>>>::empty());
    assert(service_views(list@) =~= Seq::<ServiceItem>::empty());
    while i < unit.len()
        invariant
            i <= unit@.len(),
            load@.len() == unit@.len(),
            active@.len() == unit@.len(),
            sub@.len() == unit@.len(),
            desc@.len() == unit@.len(),
            u == opt_views(unit@),
            l == opt_views(load@),
            a == opt_views(active@),
            s == opt_views(sub@),
            d == opt_views(desc@),
            service_views(list@) == member_services(u.take(i as int), l, a, s, d),
        decreases unit@.len() - i,
    {
        assert(u.take(i + 1).drop_last() =~= u.take(i as int));
        assert(u.take(i + 1).last() == opt_view(unit@[i as int]));
        assert(l[i as int] == opt_view(load@[i as int]));
        assert(a[i as int] == opt_view(active@[i as int]));
        assert(s[i as int] == opt_view(sub@[i as int]));
        assert(d[i as int] == opt_view(desc@[i as int]));
        match &unit[i] {
            Some(name) => {
                let item = ServiceInfo {
                    name: name.as_str().to_owned(),
                    load: opt_string(&load[i]),
                    active: opt_string(&active[i]),
                    sub: opt_string(&sub[i]),
                    description: opt_string(&desc[i]),
                };
                let ghost before = service_views(list@);
                list.push(item);
                assert(service_views(list@) =~= before.push(service_view(item)));
            },
            None => {},
        }
        i = i + 1;
    }
    assert(u.take(unit@.len() as int) =~= u);
    list
}

/// The services of `systemctl list-units --output=json` output.
pub fn services_from_json(bytes: &[u8]) -> (list: Vec<ServiceInfo>)
    ensures
        service_views(list@) == member_services(
            Seq::new(json_array_len(bytes@), |i: int| json_array_str_member(bytes@, i, "unit"@)),
            Seq::new(json_array_len(bytes@), |i: int| json_array_str_member(bytes@, i, "load"@)),
            Seq::new(json_array_len(bytes@), |i: int| json_array_str_member(bytes@, i, "active"@)),
            Seq::new(json_array_len(bytes@), |i: int| json_array_str_member(bytes@, i, "sub"@)),
            Seq::new(json_array_len(bytes@), |i: int| json_array_str_member(bytes@, i, "description"@)),
        ),
{
    let unit = json_array_members(bytes, "unit");
    let load = json_array_members(bytes, "load");
    let active = json_array_members(bytes, "active");
    let sub = json_array_members(bytes, "sub");
    let desc = json_array_members(bytes, "description");
    assert(opt_views(unit@) =~= Seq::new(json_array_len(bytes@), |i: int| json_array_str_member(bytes@, i, "unit"@)));
    assert(opt_views(load@) =~= Seq::new(json_array_len(bytes@), |i: int| json_array_str_member(bytes@, i, "load"@)));
    assert(opt_views(active@) =~= Seq::new(json_array_len(bytes@), |i: int| json_array_str_member(bytes@, i, "active"@)));
    assert(opt_views(sub@) =~= Seq::new(json_array_len(bytes@), |i: int| json_array_str_member(bytes@, i, "sub"@)));
    assert(opt_views(desc@) =~= Seq::new(
        json_array_len(bytes@),
        |i: int| json_array_str_member(bytes@, i, "description"@),
    ));
    services_from_members(&unit, &load, &active, &sub, &desc)
}

} // verus!
