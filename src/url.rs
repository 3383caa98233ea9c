use crate::key_order::{
    key_less, key_lt, lemma_key_lt_asymmetric, lemma_key_lt_irreflexive, lemma_key_lt_total,
    lemma_key_lt_transitive,
};
use vstd::prelude::*;

verus! {

/// The abstract value of a [`URLBuilder`]: its fields, with the query
/// parameters as a sequence of key/value pairs ordered by key.
pub struct UrlModel {
    pub protocol: Seq<char>,
    pub host: Seq<char>,
    pub port: u16,
    pub params: Seq<(Seq<char>, Seq<char>)>,
}

/// The keys strictly increase in the order of [`key_lt`], so no two
/// parameters share a key.
pub open spec fn sorted_by_key(ps: Seq<(Seq<char>, Seq<char>)>) -> bool {
    forall|i: int, j: int| 0 <= i < j < ps.len() ==> key_lt(ps[i].0, ps[j].0)
}

/// The parameters after inserting `k = v` into parameters ordered by key:
/// the value of an existing key `k` is overwritten, otherwise the pair goes
/// where its key belongs in the order.
pub open spec fn with_param(
    ps: Seq<(Seq<char>, Seq<char>)>,
    k: Seq<char>,
    v: Seq<char>,
) -> Seq<(Seq<char>, Seq<char>)>
    decreases ps.len(),
{
    if ps.len() == 0 {
        seq![(k, v)]
    } else if ps[0].0 == k {
        ps.update(0, (k, v))
    } else if key_lt(k, ps[0].0) {
        seq![(k, v)] + ps
    } else {
        seq![ps[0]] + with_param(ps.drop_first(), k, v)
    }
}

/// Past a prefix of keys that all come before `k`, inserting `k` leaves the
/// prefix alone.
proof fn lemma_with_param_at(ps: Seq<(Seq<char>, Seq<char>)>, i: int, k: Seq<char>, v: Seq<char>)
    requires
        0 <= i <= ps.len(),
        forall|j: int| 0 <= j < i ==> key_lt(#[trigger] ps[j].0, k),
    ensures
        with_param(ps, k, v) == ps.take(i) + with_param(ps.skip(i), k, v),
    decreases i,
{
    if i > 0 {
        lemma_key_lt_irreflexive(k);
        lemma_key_lt_asymmetric(ps[0].0, k);
        assert(key_lt(ps[0].0, k));
        let rest = ps.drop_first();
        assert forall|j: int| 0 <= j < i - 1 implies key_lt(#[trigger] rest[j].0, k) by {
            assert(rest[j] == ps[j + 1]);
        }
        lemma_with_param_at(rest, i - 1, k, v);
        assert(rest.skip(i - 1) =~= ps.skip(i));
        assert(ps.take(i) =~= seq![ps[0]] + rest.take(i - 1));
        assert(with_param(ps, k, v) =~= ps.take(i) + with_param(ps.skip(i), k, v));
    } else {
        assert(ps.take(0) =~= Seq::<(Seq<char>, Seq<char>)>::empty());
        assert(ps.skip(0) =~= ps);
    }
}

/// Inserting a key that comes after every key present appends the pair.
pub proof fn lemma_with_param_last(ps: Seq<(Seq<char>, Seq<char>)>, k: Seq<char>, v: Seq<char>)
    requires
        forall|j: int| 0 <= j < ps.len() ==> key_lt(#[trigger] ps[j].0, k),
    ensures
        with_param(ps, k, v) == ps.push((k, v)),
{
    lemma_with_param_at(ps, ps.len() as int, k, v);
    assert(ps.skip(ps.len() as int) =~= Seq::<(Seq<char>, Seq<char>)>::empty());
    assert(ps.take(ps.len() as int) =~= ps);
    assert(ps.take(ps.len() as int) + seq![(k, v)] =~= ps.push((k, v)));
}

/// After inserting `k = v`, the pair `(k, v)` is among the parameters.
proof fn lemma_with_param_contains(ps: Seq<(Seq<char>, Seq<char>)>, k: Seq<char>, v: Seq<char>)
    ensures
        with_param(ps, k, v).contains((k, v)),
    decreases ps.len(),
{
    let w = with_param(ps, k, v);
    if ps.len() == 0 || ps[0].0 == k || key_lt(k, ps[0].0) {
        assert(w[0] == (k, v));
    } else {
        lemma_with_param_contains(ps.drop_first(), k, v);
        let r = with_param(ps.drop_first(), k, v);
        let j = choose|j: int| 0 <= j < r.len() && r[j] == (k, v);
        assert(w[j + 1] == (k, v));
    }
}

/// Two sequences ordered by key that hold the same set of pairs are equal.
proof fn lemma_sorted_unique(a: Seq<(Seq<char>, Seq<char>)>, b: Seq<(Seq<char>, Seq<char>)>)
    requires
        sorted_by_key(a),
        sorted_by_key(b),
        a.to_set() == b.to_set(),
    ensures
        a == b,
    decreases a.len(),
{
    if a.len() == 0 {
        if b.len() > 0 {
            assert(b.to_set().contains(b[0]));
        }
        assert(a =~= b);
    } else if b.len() == 0 {
        assert(a.to_set().contains(a[0]));
    } else {
        assert(b.to_set().contains(a[0]));
        assert(a.to_set().contains(b[0]));
        let i = choose|i: int| 0 <= i < a.len() && a[i] == b[0];
        let j = choose|j: int| 0 <= j < b.len() && b[j] == a[0];
        lemma_key_lt_irreflexive(a[0].0);
        lemma_key_lt_asymmetric(a[0].0, b[0].0);
        if i > 0 {
            assert(key_lt(a[0].0, a[i].0));
            if j > 0 {
                assert(key_lt(b[0].0, b[j].0));
            }
        } else if j > 0 {
            assert(key_lt(b[0].0, b[j].0));
        }
        assert(a[0] == b[0]);
        let a1 = a.drop_first();
        let b1 = b.drop_first();
        assert forall|x: (Seq<char>, Seq<char>)| a1.to_set().contains(x) <==> b1.to_set().contains(x) by {
            if a1.contains(x) {
                let p = choose|p: int| 0 <= p < a1.len() && a1[p] == x;
                assert(key_lt(a[0].0, a[p + 1].0));
                lemma_key_lt_irreflexive(x.0);
                assert(a.contains(x));
                assert(b.to_set().contains(x));
                let q = choose|q: int| 0 <= q < b.len() && b[q] == x;
                assert(q != 0);
                assert(b1[q - 1] == x);
            }
            if b1.contains(x) {
                let p = choose|p: int| 0 <= p < b1.len() && b1[p] == x;
                assert(key_lt(b[0].0, b[p + 1].0));
                lemma_key_lt_irreflexive(x.0);
                assert(b.contains(x));
                assert(a.to_set().contains(x));
                let q = choose|q: int| 0 <= q < a.len() && a[q] == x;
                assert(q != 0);
                assert(a1[q - 1] == x);
            }
        }
        assert(a1.to_set() =~= b1.to_set());
        lemma_sorted_unique(a1, b1);
        assert(a =~= seq![a[0]] + a1);
        assert(b =~= seq![b[0]] + b1);
    }
}

/// The decimal digit `d` (below ten) as a character.
pub open spec fn digit_char(d: nat) -> char {
    seq!['0', '1', '2', '3', '4', '5', '6', '7', '8', '9'][d as int]
}

/// The decimal rendering of `n`, without leading zeros.
pub open spec fn decimal(n: nat) -> Seq<char>
    decreases n,
{
    if n < 10 {
        seq![digit_char(n)]
    } else {
        decimal(n / 10).push(digit_char(n % 10))
    }
}

/// `key=value`.
pub open spec fn pair_text(p: (Seq<char>, Seq<char>)) -> Seq<char> {
    p.0 + seq!['='] + p.1
}

/// Each pair rendered as `key=value&`, in order.
pub open spec fn query_text(ps: Seq<(Seq<char>, Seq<char>)>) -> Seq<char>
    decreases ps.len(),
{
    if ps.len() == 0 {
        Seq::empty()
    } else {
        query_text(ps.drop_last()) + pair_text(ps.last()) + seq!['&']
    }
}

/// `:port`, or nothing for port 0.
pub open spec fn port_segment(port: u16) -> Seq<char> {
    if port == 0 {
        Seq::empty()
    } else {
        seq![':'] + decimal(port as nat)
    }
}

/// `?k1=v1&k2=v2&...&`, or nothing when there are no parameters.
pub open spec fn query_segment(ps: Seq<(Seq<char>, Seq<char>)>) -> Seq<char> {
    if ps.len() == 0 {
        Seq::empty()
    } else {
        seq!['?'] + query_text(ps)
    }
}

/// `protocol://host`.
pub open spec fn base_text(u: UrlModel) -> Seq<char> {
    u.protocol + seq![':', '/', '/'] + u.host
}

/// The URL that a builder in state `u` renders.
pub open spec fn url_text(u: UrlModel) -> Seq<char> {
    base_text(u) + port_segment(u.port) + query_segment(u.params)
}

/// `needle` occurs in `hay` as a contiguous run.
pub open spec fn contains_text(hay: Seq<char>, needle: Seq<char>) -> bool {
    exists|j: int| 0 <= j && j + needle.len() <= hay.len() && #[trigger] hay.subrange(j, j + needle.len()) == needle
}

/// The rendering of a prefix of the parameters is a prefix of the rendering
/// of all of them.
proof fn lemma_query_prefix(ps: Seq<(Seq<char>, Seq<char>)>, n: int)
    requires
        0 <= n <= ps.len(),
    ensures
        query_text(ps.take(n)) == query_text(ps).subrange(0, query_text(ps.take(n)).len() as int),
        query_text(ps.take(n)).len() <= query_text(ps).len(),
    decreases ps.len() - n,
{
    if n < ps.len() {
        lemma_query_prefix(ps, n + 1);
        assert(ps.take(n + 1).drop_last() =~= ps.take(n));
        let a = query_text(ps.take(n));
        let b = query_text(ps.take(n + 1));
        let q = query_text(ps);
        assert(b =~= a + pair_text(ps[n]) + seq!['&']);
        assert(q.subrange(0, a.len() as int) =~= b.subrange(0, a.len() as int));
    } else {
        assert(ps.take(n) =~= ps);
    }
}

/// The port segment is left out of the URL exactly when the port is 0, and
/// the query segment exactly when there are no parameters; a present port
/// segment is `:` and the port in decimal, a present query segment is `?`
/// and the pairs.
pub proof fn lemma_url_segments(u: UrlModel)
    ensures
        url_text(u) == base_text(u) + port_segment(u.port) + query_segment(u.params),
        (url_text(u) == base_text(u) + query_segment(u.params)) <==> u.port == 0,
        (url_text(u) == base_text(u) + port_segment(u.port)) <==> u.params.len() == 0,
        u.port != 0 ==> port_segment(u.port) == seq![':'] + decimal(u.port as nat),
        u.params.len() != 0 ==> query_segment(u.params) == seq!['?'] + query_text(u.params),
{
    let b = base_text(u);
    let p = port_segment(u.port);
    let q = query_segment(u.params);
    if u.port == 0 {
        assert(b + p =~= b);
    } else {
        assert((b + p + q).len() != (b + q).len());
    }
    if u.params.len() == 0 {
        assert(b + p + q =~= b + p);
    } else {
        assert((b + p + q).len() != (b + p).len());
    }
}

/// Every `key=value` pair of the parameters occurs verbatim in the URL.
pub proof fn lemma_param_in_url(u: UrlModel, i: int)
    requires
        0 <= i < u.params.len(),
    ensures
        contains_text(url_text(u), pair_text(u.params[i])),
{
    let ps = u.params;
    lemma_query_prefix(ps, i + 1);
    assert(ps.take(i + 1).drop_last() =~= ps.take(i));
    let a = query_text(ps.take(i));
    let b = query_text(ps.take(i + 1));
    let pt = pair_text(ps[i]);
    assert(b =~= a + pt + seq!['&']);
    let head = base_text(u) + port_segment(u.port) + seq!['?'];
    let url = url_text(u);
    assert(url =~= head + query_text(ps));
    let q = query_text(ps);
    let j: int = (head.len() + a.len()) as int;
    assert(q.subrange(0, b.len() as int) == b);
    let s: int = a.len() as int;
    let e: int = s + pt.len();
    assert(url.subrange(j, j + pt.len()) =~= q.subrange(s, e));
    assert(q.subrange(s, e) =~= b.subrange(s, e));
    assert(b.subrange(s, e) =~= pt);
}

/// After `add_param(k, v)` the pair `k=v` occurs verbatim in the URL.
pub proof fn lemma_added_param_in_url(u: UrlModel, k: Seq<char>, v: Seq<char>)
    ensures
        contains_text(url_text(UrlModel { params: with_param(u.params, k, v), ..u }), pair_text((k, v))),
{
    let u2 = UrlModel { params: with_param(u.params, k, v), ..u };
    lemma_with_param_contains(u.params, k, v);
    let i = choose|i: int| 0 <= i < u2.params.len() && u2.params[i] == (k, v);
    lemma_param_in_url(u2, i);
}

/// The URL is fixed by the protocol, host, port and the set of parameter
/// pairs alone: builders that agree on these render the same URL, whatever
/// order their parameters were added in.
pub proof fn lemma_url_determined_by_pairs(u1: UrlModel, u2: UrlModel)
    requires
        sorted_by_key(u1.params),
        sorted_by_key(u2.params),
        u1.protocol == u2.protocol,
        u1.host == u2.host,
        u1.port == u2.port,
        u1.params.to_set() == u2.params.to_set(),
    ensures
        url_text(u1) == url_text(u2),
{
    lemma_sorted_unique(u1.params, u2.params);
}

/// Accumulates a protocol, a host, an optional port and a set of query
/// parameters, and renders them as one URL.
pub struct URLBuilder {
    protocol: String,
    host: String,
    port: u16,
    params: Vec<(String, String)>,
}

impl View for URLBuilder {
    type V = UrlModel;

    closed spec fn view(&self) -> UrlModel {
        UrlModel {
            protocol: self.protocol@,
            host: self.host@,
            port: self.port,
            params: self.params@.map_values(|p: (String, String)| (p.0@, p.1@)),
        }
    }
}

impl URLBuilder {
    /// Parameters are kept ordered by key, with no key twice.
    pub open spec fn wf(&self) -> bool {
        sorted_by_key(self@.params)
    }

    /// An empty builder: no protocol, no host, port 0, no parameters.
    pub fn new() -> (r: URLBuilder)
        ensures
            r.wf(),
            r@.protocol == Seq::<char>::empty(),
            r@.host == Seq::<char>::empty(),
            r@.port == 0,
            r@.params == Seq::<(Seq<char>, Seq<char>)>::empty(),
    {
        let r = URLBuilder { protocol: String::new(), host: String::new(), port: 0, params: Vec::new() };
        assert(r@.params =~= Seq::<(Seq<char>, Seq<char>)>::empty());
        r
    }

    /// Overwrites the protocol.
    pub fn set_protocol(&mut self, protocol: &str) -> (r: &mut Self)
        ensures
            r@ == (UrlModel { protocol: protocol@, ..old(self)@ }),
            *final(self) == *final(r),
    {
        self.protocol = protocol.to_owned();
        self
    }

    /// Overwrites the port; 0 means no port in the URL.
    pub fn set_port(&mut self, port: u16) -> (r: &mut Self)
        ensures
            r@ == (UrlModel { port, ..old(self)@ }),
            *final(self) == *final(r),
    {
        self.port = port;
        self
    }

    /// Overwrites the host.
    pub fn set_host(&mut self, host: &str) -> (r: &mut Self)
        ensures
            r@ == (UrlModel { host: host@, ..old(self)@ }),
            *final(self) == *final(r),
    {
        self.host = host.to_owned();
        self
    }

    /// Inserts the query parameter `param=value`, overwriting the value of an
    /// existing `param`. Parameters are kept ordered by key.
    pub fn add_param(&mut self, param: &str, value: &str) -> (r: &mut Self)
        requires
            old(self).wf(),
        ensures
            r.wf(),
            r@ == (UrlModel { params: with_param(old(self)@.params, param@, value@), ..old(self)@ }),
            *final(self) == *final(r),
    {
        let ghost ps = self@.params;
        let mut i: usize = 0;
        while i < self.params.len() && key_less(self.params[i].0.as_str(), param)
            invariant
                i <= self.params@.len(),
                ps == self@.params,
                self@ == old(self)@,
                sorted_by_key(ps),
                forall|j: int| 0 <= j < i ==> key_lt(#[trigger] ps[j].0, param@),
            decreases self.params@.len() - i,
        {
            assert(ps[i as int] == (self.params@[i as int].0@, self.params@[i as int].1@));
            i = i + 1;
        }
        proof {
            lemma_with_param_at(ps, i as int, param@, value@);
        }
        let key = param.to_owned();
        let ghost kv = (param@, value@);
        if i == self.params.len() {
            self.params.push((key, value.to_owned()));
            assert(ps.skip(i as int) =~= Seq::<(Seq<char>, Seq<char>)>::empty());
            assert(self@.params =~= ps.take(i as int) + seq![kv]);
            assert forall|a: int, b: int| 0 <= a < b < self@.params.len() implies key_lt(
                self@.params[a].0,
                self@.params[b].0,
            ) by {
                assert(self@.params[a] == ps[a]);
                if b < i {
                    assert(self@.params[b] == ps[b]);
                }
            }
        } else {
            assert(ps[i as int] == (self.params@[i as int].0@, self.params@[i as int].1@));
            let ghost rest = ps.skip(i as int);
            assert(rest[0] == ps[i as int]);
            if self.params[i].0 == key {
                self.params[i] = (key, value.to_owned());
                assert(self@.params =~= ps.take(i as int) + rest.update(0, kv));
                assert forall|a: int, b: int| 0 <= a < b < self@.params.len() implies key_lt(
                    self@.params[a].0,
                    self@.params[b].0,
                ) by {
                    assert(self@.params[a].0 == ps[a].0);
                    assert(self@.params[b].0 == ps[b].0);
                }
            } else {
                proof {
                    lemma_key_lt_total(ps[i as int].0, param@);
                }
                assert(key_lt(param@, ps[i as int].0));
                self.params.insert(i, (key, value.to_owned()));
                assert(self@.params =~= ps.take(i as int) + (seq![kv] + rest));
                assert forall|j: int| i < j < ps.len() implies key_lt(param@, #[trigger] ps[j].0) by {
                    lemma_key_lt_transitive(param@, ps[i as int].0, ps[j].0);
                }
                assert forall|a: int, b: int| 0 <= a < b < self@.params.len() implies key_lt(
                    self@.params[a].0,
                    self@.params[b].0,
                ) by {
                    if b == i {
                        assert(self@.params[a] == ps[a]);
                    } else if a == i {
                        assert(self@.params[b] == ps[b - 1]);
                    } else if a < i && b > i {
                        assert(self@.params[a] == ps[a]);
                        assert(self@.params[b] == ps[b - 1]);
                    } else if a > i {
                        assert(self@.params[a] == ps[a - 1]);
                        assert(self@.params[b] == ps[b - 1]);
                    } else {
                        assert(self@.params[a] == ps[a]);
                        assert(self@.params[b] == ps[b]);
                    }
                }
            }
        }
        self
    }

    /// The port.
    pub fn port(&self) -> (r: u16)
        ensures
            r == self@.port,
    {
        self.port
    }

    /// The host.
    pub fn host(&self) -> (r: &str)
        ensures
            r@ == self@.host,
    {
        self.host.as_str()
    }

    /// The protocol.
    pub fn protocol(&self) -> (r: &str)
        ensures
            r@ == self@.protocol,
    {
        self.protocol.as_str()
    }

    /// Renders `protocol://host`, then `:port` unless the port is 0, then
    /// `?k1=v1&k2=v2&...&` unless there are no parameters. Keys and values are
    /// copied as they are, without escaping. The result is a function of the
    /// builder's state alone, so building twice without a change in between
    /// gives the same URL.
    pub fn build(&self) -> (r: String)
        ensures
            r@ == url_text(self@),
    {
        let mut url = self.protocol.clone();
        url.append("://");
        url.append(self.host.as_str());
        proof {
            reveal_strlit("://");
            assert(url@ =~= base_text(self@));
        }
        if self.port != 0 {
            url.append(":");
            proof {
                reveal_strlit(":");
            }
            push_decimal(&mut url, self.port);
        }
        assert(url@ =~= base_text(self@) + port_segment(self@.port));
        if self.params.len() > 0 {
            url.append("?");
            let ghost head = url@;
            let ghost ps = self@.params;
            proof {
                reveal_strlit("?");
                reveal_strlit("=");
                reveal_strlit("&");
                assert(ps.take(0) =~= Seq::<(Seq<char>, Seq<char>)>::empty());
            }
            let mut i: usize = 0;
            while i < self.params.len()
                invariant
                    i <= ps.len(),
                    ps == self@.params,
                    url@ == head + query_text(ps.take(i as int)),
                    "="@ == seq!['='],
                    "&"@ == seq!['&'],
                decreases ps.len() - i,
            {
                url.append(self.params[i].0.as_str());
                url.append("=");
                url.append(self.params[i].1.as_str());
                url.append("&");
                proof {
                    assert(ps.take(i + 1).drop_last() =~= ps.take(i as int));
                    assert(url@ =~= head + query_text(ps.take(i + 1)));
                }
                i = i + 1;
            }
            assert(ps.take(ps.len() as int) =~= ps);
        }
        assert(url@ =~= url_text(self@));
        url
    }
}

/// The digit `d` as a one-character string.
fn digit_str(d: u16) -> (r: &'static str)
    requires
        d < 10,
    ensures
        r@ == seq![digit_char(d as nat)],
{
    proof {
        reveal_strlit("0");
        reveal_strlit("1");
        reveal_strlit("2");
        reveal_strlit("3");
        reveal_strlit("4");
        reveal_strlit("5");
        reveal_strlit("6");
        reveal_strlit("7");
        reveal_strlit("8");
        reveal_strlit("9");
    }
    let r = match d {
        0 => "0",
        1 => "1",
        2 => "2",
        3 => "3",
        4 => "4",
        5 => "5",
        6 => "6",
        7 => "7",
        8 => "8",
        _ => "9",
    };
    assert(r@ =~= seq![digit_char(d as nat)]);
    r
}

/// Appends the decimal rendering of `n` to `out`.
fn push_decimal(out: &mut String, n: u16)
    ensures
        final(out)@ == old(out)@ + decimal(n as nat),
    decreases n,
{
    if n >= 10 {
        push_decimal(out, n / 10);
    }
    out.append(digit_str(n % 10));
    assert(out@ =~= old(out)@ + decimal(n as nat));
}

} // verus!
