//! Header fields, case-insensitive lookup and the sanitising policy applied to
//! every forwarded request.

use vstd::prelude::*;

verus! {

/// Names the caller uses to steer the proxy.
pub const ROUTING_HEADER: &'static str = "x-reroute-to";

pub const ACCEPT_ENCODING_OVERRIDE: &'static str = "x-accept-encoding";

pub const RELOAD_ON_403: &'static str = "x-reload-on-403";

pub const ACCEPT_ENCODING: &'static str = "accept-encoding";

/// `c` with an ASCII capital turned into its small letter.
pub open spec fn lower_char(c: char) -> char {
    if 'A' <= c <= 'Z' {
        ((c as u32) + 32) as char
    } else {
        c
    }
}

/// `s` with every ASCII capital turned into its small letter; header names
/// compare equal exactly when these agree.
pub open spec fn ascii_lower(s: Seq<char>) -> Seq<char> {
    s.map_values(|c: char| lower_char(c))
}

/// Relies on `str::to_ascii_lowercase`: 'A'..='Z' become 'a'..='z', every
/// other character stays.
#[verifier::external_body]
fn lowercase_ascii(s: &str) -> (r: String)
    ensures
        r@ == ascii_lower(s@),
{
    s.to_ascii_lowercase()
}

/// Relies on `str::starts_with` with a `&str` pattern: whether `prefix` is a
/// prefix of `s`.
#[verifier::external_body]
fn has_prefix(s: &str, prefix: &str) -> (r: bool)
    ensures
        r == (prefix@.len() <= s@.len() && s@.subrange(0, prefix@.len() as int) == prefix@),
{
    s.starts_with(prefix)
}

/// One header line: a name and its value.
#[derive(Debug)]
pub struct HeaderField {
    pub name: String,
    pub value: String,
}

impl View for HeaderField {
    type V = (Seq<char>, Seq<char>);

    open spec fn view(&self) -> (Seq<char>, Seq<char>) {
        (self.name@, self.value@)
    }
}

/// The name/value pairs of a list of header fields.
pub open spec fn fields(hs: Seq<HeaderField>) -> Seq<(Seq<char>, Seq<char>)> {
    hs.map_values(|h: HeaderField| h@)
}

/// The value of the first field whose name matches `key`, ignoring ASCII case.
pub open spec fn first_value(hs: Seq<(Seq<char>, Seq<char>)>, key: Seq<char>) -> Option<Seq<char>>
    decreases hs.len(),
{
    if hs.len() == 0 {
        None
    } else if ascii_lower(hs[0].0) == key {
        Some(hs[0].1)
    } else {
        first_value(hs.drop_first(), key)
    }
}

/// `hs` without the fields whose name matches `key`, ignoring ASCII case.
pub open spec fn without_name(hs: Seq<(Seq<char>, Seq<char>)>, key: Seq<char>) -> Seq<(Seq<char>, Seq<char>)>
    decreases hs.len(),
{
    if hs.len() == 0 {
        hs
    } else {
        let rest = without_name(hs.drop_last(), key);
        if ascii_lower(hs.last().0) == key {
            rest
        } else {
            rest.push(hs.last())
        }
    }
}

impl HeaderField {
    pub fn new(name: &str, value: &str) -> (r: HeaderField)
        ensures
            r.name@ == name@,
            r.value@ == value@,
    {
        HeaderField { name: name.to_owned(), value: value.to_owned() }
    }

    pub fn duplicate(&self) -> (r: HeaderField)
        ensures
            r@ == self@,
    {
        HeaderField { name: self.name.clone(), value: self.value.clone() }
    }
}

/// The value of the first field named `key` (given in lower case), compared
/// without regard to ASCII case.
pub fn find_header(headers: &Vec<HeaderField>, key: &str) -> (r: Option<String>)
    ensures
        match first_value(fields(headers@), key@) {
            Some(v) => r matches Some(s) && s@ == v,
            None => r is None,
        },
{
    let target = key.to_owned();
    assert(fields(headers@).subrange(0, headers@.len() as int) =~= fields(headers@));
    let mut i: usize = 0;
    while i < headers.len()
        invariant
            0 <= i <= headers@.len(),
            target@ == key@,
            first_value(fields(headers@), key@) == first_value(fields(headers@).subrange(i as int, headers@.len() as int), key@),
        decreases headers@.len() - i,
    {
        let ghost rest = fields(headers@).subrange(i as int, headers@.len() as int);
        assert(rest.drop_first() =~= fields(headers@).subrange(i + 1, headers@.len() as int));
        let name = lowercase_ascii(headers[i].name.as_str());
        if name == target {
            return Some(headers[i].value.clone());
        }
        i = i + 1;
    }
    None
}

/// The views of a list of strings.
pub open spec fn names(v: Seq<String>) -> Seq<Seq<char>> {
    v.map_values(|s: String| s@)
}

/// Whether `v` holds a string equal to `s`.
fn list_contains(v: &Vec<String>, s: &String) -> (r: bool)
    ensures
        r == names(v@).contains(s@),
{
    let mut i: usize = 0;
    while i < v.len()
        invariant
            0 <= i <= v@.len(),
            forall|k: int| 0 <= k < i ==> names(v@)[k] != s@,
        decreases v@.len() - i,
    {
        if v[i] == *s {
            assert(names(v@)[i as int] == s@);
            return true;
        }
        i = i + 1;
    }
    false
}

/// Which header names are stripped before a request is forwarded: names in
/// an exact list, and names that start with one of a few family prefixes
/// unless they are allow-listed. All entries are held in lower case, and
/// the comparison lower-cases the header name first.
#[derive(Debug)]
pub struct HeaderPolicy {
    exact: Vec<String>,
    families: Vec<String>,
    allowed: Vec<String>,
}

/// Whether `p` is a prefix of `s`.
pub open spec fn is_prefix(p: Seq<char>, s: Seq<char>) -> bool {
    p.len() <= s.len() && s.subrange(0, p.len() as int) == p
}

impl HeaderPolicy {
    pub closed spec fn exact_names(&self) -> Seq<Seq<char>> {
        names(self.exact@)
    }

    pub closed spec fn family_prefixes(&self) -> Seq<Seq<char>> {
        names(self.families@)
    }

    pub closed spec fn allowed_names(&self) -> Seq<Seq<char>> {
        names(self.allowed@)
    }

    /// Whether a header of this name is stripped.
    pub open spec fn removes(&self, name: Seq<char>) -> bool {
        let key = ascii_lower(name);
        ||| self.exact_names().contains(key)
        ||| !self.allowed_names().contains(key) && exists|i: int|
            0 <= i < self.family_prefixes().len() && is_prefix(#[trigger] self.family_prefixes()[i], key)
    }

    /// The policy is well formed: every entry is in lower case, the
    /// accept-encoding override is stripped and `accept-encoding` itself is not.
    pub open spec fn wf(&self) -> bool {
        &&& forall|i: int| 0 <= i < self.exact_names().len() ==> ascii_lower(#[trigger] self.exact_names()[i]) == self.exact_names()[i]
        &&& self.removes(ACCEPT_ENCODING_OVERRIDE@)
        &&& !self.removes(ACCEPT_ENCODING@)
    }

    /// Whether a header of this name is stripped.
    pub fn strips(&self, name: &String) -> (r: bool)
        ensures
            r == self.removes(name@),
    {
        let key = lowercase_ascii(name.as_str());
        if list_contains(&self.exact, &key) {
            return true;
        }
        if list_contains(&self.allowed, &key) {
            return false;
        }
        let mut i: usize = 0;
        while i < self.families.len()
            invariant
                0 <= i <= self.families@.len(),
                key@ == ascii_lower(name@),
                !self.exact_names().contains(key@),
                !self.allowed_names().contains(key@),
                forall|k: int| 0 <= k < i ==> !is_prefix(#[trigger] self.family_prefixes()[k], key@),
            decreases self.families@.len() - i,
        {
            if has_prefix(key.as_str(), self.families[i].as_str()) {
                assert(is_prefix(self.family_prefixes()[i as int], key@));
                return true;
            }
            i = i + 1;
        }
        false
    }
}

/// The fields of `hs` whose names `policy` does not strip, in their order.
pub open spec fn kept(policy: HeaderPolicy, hs: Seq<(Seq<char>, Seq<char>)>) -> Seq<(Seq<char>, Seq<char>)>
    decreases hs.len(),
{
    if hs.len() == 0 {
        hs
    } else {
        let rest = kept(policy, hs.drop_last());
        if policy.removes(hs.last().0) {
            rest
        } else {
            rest.push(hs.last())
        }
    }
}

/// The header set forwarded for an inbound set `hs`: the fields that the
/// policy keeps, in their order; when the inbound set carries the
/// accept-encoding override, every `accept-encoding` field is replaced by one
/// that holds the override's (first) value. Without the override the inbound
/// `accept-encoding` fields pass as they are.
pub open spec fn sanitized(policy: HeaderPolicy, hs: Seq<(Seq<char>, Seq<char>)>) -> Seq<(Seq<char>, Seq<char>)> {
    match first_value(hs, ACCEPT_ENCODING_OVERRIDE@) {
        Some(v) => without_name(kept(policy, hs), ACCEPT_ENCODING@).push((ACCEPT_ENCODING@, v)),
        None => kept(policy, hs),
    }
}

/// Removes from `out` every field whose name matches `key` (lower case).
fn remove_named(out: Vec<HeaderField>, key: &str) -> (r: Vec<HeaderField>)
    ensures
        fields(r@) == without_name(fields(out@), key@),
{
    let target = key.to_owned();
    let mut r: Vec<HeaderField> = Vec::new();
    let mut i: usize = 0;
    while i < out.len()
        invariant
            0 <= i <= out@.len(),
            target@ == key@,
            fields(r@) == without_name(fields(out@).subrange(0, i as int), key@),
        decreases out@.len() - i,
    {
        let ghost before = fields(out@).subrange(0, i + 1);
        assert(before.drop_last() =~= fields(out@).subrange(0, i as int));
        let name = lowercase_ascii(out[i].name.as_str());
        if name != target {
            let field = out[i].duplicate();
            r.push(field);
            assert(fields(r@) =~= without_name(fields(out@).subrange(0, i as int), key@).push(out@[i as int]@));
        }
        i = i + 1;
    }
    assert(fields(out@).subrange(0, out@.len() as int) =~= fields(out@));
    r
}

impl HeaderPolicy {
    /// The header set to forward for an inbound set.
    pub fn sanitise(&self, headers: &Vec<HeaderField>) -> (r: Vec<HeaderField>)
        ensures
            fields(r@) == sanitized(*self, fields(headers@)),
    {
        let mut out: Vec<HeaderField> = Vec::new();
        let mut i: usize = 0;
        while i < headers.len()
            invariant
                0 <= i <= headers@.len(),
                fields(out@) == kept(*self, fields(headers@).subrange(0, i as int)),
            decreases headers@.len() - i,
        {
            let ghost before = fields(headers@).subrange(0, i + 1);
            assert(before.drop_last() =~= fields(headers@).subrange(0, i as int));
            if !self.strips(&headers[i].name) {
                let field = headers[i].duplicate();
                out.push(field);
                assert(fields(out@) =~= kept(*self, fields(headers@).subrange(0, i as int)).push(headers@[i as int]@));
            }
            i = i + 1;
        }
        assert(fields(headers@).subrange(0, headers@.len() as int) =~= fields(headers@));
        match find_header(headers, ACCEPT_ENCODING_OVERRIDE) {
            Some(v) => {
                let mut out = remove_named(out, ACCEPT_ENCODING);
                let name = ACCEPT_ENCODING.to_owned();
                out.push(HeaderField { name, value: v });
                assert(fields(out@) =~= sanitized(*self, fields(headers@)));
                out
            },
            None => out,
        }
    }
}

/// The views of a list of string slices.
pub open spec fn slice_names(v: Seq<&str>) -> Seq<Seq<char>> {
    v.map_values(|s: &str| s@)
}

/// Copies a list of string slices into owned strings.
fn owned_list(items: &[&str]) -> (r: Vec<String>)
    ensures
        names(r@) == slice_names(items@),
{
    let mut r: Vec<String> = Vec::new();
    let mut i: usize = 0;
    while i < items.len()
        invariant
            0 <= i <= items@.len(),
            names(r@) == slice_names(items@.subrange(0, i as int)),
        decreases items@.len() - i,
    {
        let item: &str = items[i];
        let owned = item.to_owned();
        assert(owned@ == items@[i as int]@);
        let ghost prev = r@;
        assert(names(prev).len() == prev.len());
        assert(prev.len() == i);
        r.push(owned);
        assert(r@.len() == i + 1);
        assert(names(r@).len() == i + 1);
        assert forall|k: int| 0 <= k <= i implies #[trigger] names(r@)[k] == slice_names(items@.subrange(0, i + 1))[k] by {
            if k < i {
                assert(names(r@)[k] == names(prev)[k]);
                assert(slice_names(items@.subrange(0, i + 1))[k] == slice_names(items@.subrange(0, i as int))[k]);
            }
        }
        assert(names(r@) =~= slice_names(items@.subrange(0, i + 1)));
        i = i + 1;
    }
    assert(items@.subrange(0, items@.len() as int) =~= items@);
    r
}

/// The names stripped from every forwarded request: the proxy's own control
/// headers, `host`, the forwarding family, `via` and loop markers.
pub open spec fn standard_exact_names() -> Seq<Seq<char>> {
    seq![
        ROUTING_HEADER@,
        ACCEPT_ENCODING_OVERRIDE@,
        RELOAD_ON_403@,
        "host"@,
        "x-proxied"@,
        "x-real-ip"@,
        "x-scheme"@,
        "x-forwarded-for"@,
        "x-forwarded-port"@,
        "x-forwarded-scheme"@,
        "x-forwarded-host"@,
        "x-forwarded-proto"@,
        "via"@,
        "cdn-loop"@,
        "render-proxy-ttl"@,
        "true-client-ip"@,
    ]
}

/// The family prefixes of the strict policy.
pub open spec fn strict_family_prefixes() -> Seq<Seq<char>> {
    seq!["x-"@, "cf-"@, "fly-"@]
}

proof fn lemma_standard_names()
    ensures
        forall|i: int| 0 <= i < standard_exact_names().len() ==> ascii_lower(#[trigger] standard_exact_names()[i]) == standard_exact_names()[i],
        forall|i: int| 0 <= i < standard_exact_names().len() ==> #[trigger] standard_exact_names()[i] != ACCEPT_ENCODING@,
        standard_exact_names()[1] == ACCEPT_ENCODING_OVERRIDE@,
        ascii_lower(ACCEPT_ENCODING@) == ACCEPT_ENCODING@,
        ascii_lower(ACCEPT_ENCODING_OVERRIDE@) == ACCEPT_ENCODING_OVERRIDE@,
{
    reveal_strlit("x-reroute-to");
    reveal_strlit("x-accept-encoding");
    reveal_strlit("x-reload-on-403");
    reveal_strlit("host");
    reveal_strlit("x-proxied");
    reveal_strlit("x-real-ip");
    reveal_strlit("x-scheme");
    reveal_strlit("x-forwarded-for");
    reveal_strlit("x-forwarded-port");
    reveal_strlit("x-forwarded-scheme");
    reveal_strlit("x-forwarded-host");
    reveal_strlit("x-forwarded-proto");
    reveal_strlit("via");
    reveal_strlit("cdn-loop");
    reveal_strlit("render-proxy-ttl");
    reveal_strlit("true-client-ip");
    reveal_strlit("accept-encoding");
    let names = standard_exact_names();
    assert forall|i: int| 0 <= i < names.len() implies ascii_lower(#[trigger] names[i]) == names[i] by {
        assert(ascii_lower(names[i]) =~= names[i]);
    }
    assert forall|i: int| 0 <= i < names.len() implies #[trigger] names[i] != ACCEPT_ENCODING@ by {
        if names[i].len() == ACCEPT_ENCODING@.len() {
            assert(names[i][0] != ACCEPT_ENCODING@[0]);
        }
    }
    assert(ascii_lower(ACCEPT_ENCODING@) =~= ACCEPT_ENCODING@);
    assert(ascii_lower(ACCEPT_ENCODING_OVERRIDE@) =~= ACCEPT_ENCODING_OVERRIDE@);
}

impl HeaderPolicy {
    fn standard_list() -> (r: Vec<String>)
        ensures
            names(r@) == standard_exact_names(),
    {
        let items: [&str; 16] = [
            ROUTING_HEADER,
            ACCEPT_ENCODING_OVERRIDE,
            RELOAD_ON_403,
            "host",
            "x-proxied",
            "x-real-ip",
            "x-scheme",
            "x-forwarded-for",
            "x-forwarded-port",
            "x-forwarded-scheme",
            "x-forwarded-host",
            "x-forwarded-proto",
            "via",
            "cdn-loop",
            "render-proxy-ttl",
            "true-client-ip",
        ];
        let r = owned_list(&items);
        assert(names(r@) =~= standard_exact_names());
        r
    }

    /// The policy applied by the proxy: the exact list alone, no family rule.
    pub fn standard() -> (r: HeaderPolicy)
        ensures
            r.wf(),
            r.exact_names() == standard_exact_names(),
            r.family_prefixes().len() == 0,
            r.allowed_names().len() == 0,
    {
        let r = HeaderPolicy { exact: HeaderPolicy::standard_list(), families: Vec::new(), allowed: Vec::new() };
        proof {
            lemma_standard_names();
            assert(r.exact_names().contains(ACCEPT_ENCODING_OVERRIDE@)) by {
                assert(r.exact_names()[1] == ACCEPT_ENCODING_OVERRIDE@);
            }
        }
        r
    }

    /// The exact list, and besides it every `x-`, `cf-` or `fly-` header.
    pub fn strict() -> (r: HeaderPolicy)
        ensures
            r.wf(),
            r.exact_names() == standard_exact_names(),
            r.family_prefixes() == strict_family_prefixes(),
            r.allowed_names().len() == 0,
    {
        let prefixes: [&str; 3] = ["x-", "cf-", "fly-"];
        let families = owned_list(&prefixes);
        let r = HeaderPolicy { exact: HeaderPolicy::standard_list(), families, allowed: Vec::new() };
        proof {
            lemma_standard_names();
            reveal_strlit("x-");
            reveal_strlit("cf-");
            reveal_strlit("fly-");
            reveal_strlit("accept-encoding");
            assert(r.family_prefixes() =~= strict_family_prefixes());
            assert(r.exact_names().contains(ACCEPT_ENCODING_OVERRIDE@)) by {
                assert(r.exact_names()[1] == ACCEPT_ENCODING_OVERRIDE@);
            }
            let key = ascii_lower(ACCEPT_ENCODING@);
            assert forall|i: int| 0 <= i < r.family_prefixes().len() implies !is_prefix(#[trigger] r.family_prefixes()[i], key) by {
                assert(key.subrange(0, r.family_prefixes()[i].len() as int)[0] != r.family_prefixes()[i][0]);
            }
        }
        r
    }
}

proof fn lemma_kept_not_removed(policy: HeaderPolicy, hs: Seq<(Seq<char>, Seq<char>)>)
    ensures
        forall|i: int| 0 <= i < kept(policy, hs).len() ==> !policy.removes(#[trigger] kept(policy, hs)[i].0),
    decreases hs.len(),
{
    if hs.len() > 0 {
        lemma_kept_not_removed(policy, hs.drop_last());
        let rest = kept(policy, hs.drop_last());
        let out = kept(policy, hs);
        assert forall|i: int| 0 <= i < out.len() implies !policy.removes(#[trigger] out[i].0) by {
            if i < rest.len() {
                assert(out[i] == rest[i]);
            }
        }
    }
}

proof fn lemma_kept_unchanged(policy: HeaderPolicy, hs: Seq<(Seq<char>, Seq<char>)>)
    requires
        forall|i: int| 0 <= i < hs.len() ==> !policy.removes(#[trigger] hs[i].0),
    ensures
        kept(policy, hs) == hs,
    decreases hs.len(),
{
    if hs.len() > 0 {
        let init = hs.drop_last();
        assert forall|i: int| 0 <= i < init.len() implies !policy.removes(#[trigger] init[i].0) by {
            assert(init[i] == hs[i]);
        }
        lemma_kept_unchanged(policy, init);
        assert(init.push(hs.last()) =~= hs);
    }
}

proof fn lemma_without_not_removed(policy: HeaderPolicy, hs: Seq<(Seq<char>, Seq<char>)>, key: Seq<char>)
    requires
        forall|i: int| 0 <= i < hs.len() ==> !policy.removes(#[trigger] hs[i].0),
    ensures
        forall|i: int| 0 <= i < without_name(hs, key).len() ==> !policy.removes(#[trigger] without_name(hs, key)[i].0),
    decreases hs.len(),
{
    if hs.len() > 0 {
        let init = hs.drop_last();
        assert forall|i: int| 0 <= i < init.len() implies !policy.removes(#[trigger] init[i].0) by {
            assert(init[i] == hs[i]);
        }
        lemma_without_not_removed(policy, init, key);
        let rest = without_name(init, key);
        let out = without_name(hs, key);
        assert forall|i: int| 0 <= i < out.len() implies !policy.removes(#[trigger] out[i].0) by {
            if i < rest.len() {
                assert(out[i] == rest[i]);
            }
        }
    }
}

proof fn lemma_first_value_absent(hs: Seq<(Seq<char>, Seq<char>)>, key: Seq<char>)
    requires
        forall|i: int| 0 <= i < hs.len() ==> ascii_lower(#[trigger] hs[i].0) != key,
    ensures
        first_value(hs, key) is None,
    decreases hs.len(),
{
    if hs.len() > 0 {
        let rest = hs.drop_first();
        assert forall|i: int| 0 <= i < rest.len() implies ascii_lower(#[trigger] rest[i].0) != key by {
            assert(rest[i] == hs[i + 1]);
        }
        lemma_first_value_absent(rest, key);
    }
}

/// No field that sanitising produces carries a name the policy strips.
proof fn lemma_sanitized_not_removed(policy: HeaderPolicy, hs: Seq<(Seq<char>, Seq<char>)>)
    requires
        policy.wf(),
    ensures
        forall|i: int| 0 <= i < sanitized(policy, hs).len() ==> !policy.removes(#[trigger] sanitized(policy, hs)[i].0),
{
    lemma_kept_not_removed(policy, hs);
    let k = kept(policy, hs);
    match first_value(hs, ACCEPT_ENCODING_OVERRIDE@) {
        Some(v) => {
            lemma_without_not_removed(policy, k, ACCEPT_ENCODING@);
            let w = without_name(k, ACCEPT_ENCODING@);
            let out = w.push((ACCEPT_ENCODING@, v));
            assert forall|i: int| 0 <= i < out.len() implies !policy.removes(#[trigger] out[i].0) by {
                if i < w.len() {
                    assert(out[i] == w[i]);
                }
            }
        },
        None => {},
    }
}

/// Sanitising is idempotent: a header set that has been sanitised once
/// comes out of a second pass unchanged.
pub proof fn lemma_sanitise_idempotent(policy: HeaderPolicy, hs: Seq<(Seq<char>, Seq<char>)>)
    requires
        policy.wf(),
    ensures
        sanitized(policy, sanitized(policy, hs)) == sanitized(policy, hs),
{
    let once = sanitized(policy, hs);
    lemma_sanitized_not_removed(policy, hs);
    lemma_kept_unchanged(policy, once);
    lemma_standard_names();
    assert forall|i: int| 0 <= i < once.len() implies ascii_lower(#[trigger] once[i].0) != ACCEPT_ENCODING_OVERRIDE@ by {
        assert(!policy.removes(once[i].0));
    }
    lemma_first_value_absent(once, ACCEPT_ENCODING_OVERRIDE@);
}

/// A header whose name, lower-cased, is on the policy's exact list never
/// survives sanitising, whatever the case it was written in.
pub proof fn lemma_exact_names_stripped(policy: HeaderPolicy, hs: Seq<(Seq<char>, Seq<char>)>, name: Seq<char>)
    requires
        policy.wf(),
        policy.exact_names().contains(ascii_lower(name)),
    ensures
        forall|i: int| 0 <= i < sanitized(policy, hs).len() ==> ascii_lower(#[trigger] sanitized(policy, hs)[i].0) != ascii_lower(name),
{
    lemma_sanitized_not_removed(policy, hs);
}

} // verus!
