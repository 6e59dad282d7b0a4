//! The unauthenticated pricing endpoint and the ping endpoint: their typed
//! envelopes, the decoding of the wire documents into them — price strings
//! parsed exactly, the table sorted by TLD for deterministic display — and
//! their renderings.

use crate::addr::{ip_text, IpAddr};
use crate::price::{parse_price, price_matches, price_ok, price_text, Price};
use crate::text::lex_lt;
use crate::{status_token, upper_is, DecodeError, ParseError, Status};
use vstd::prelude::*;

verus! {

/// The fees of one TLD, one exact decimal amount per operation.
#[derive(Debug, Clone, Copy, PartialEq, Eq, Structural)]
pub struct TLDPricing {
    /// Registration fee.
    pub registration: Price,
    /// Renewal fee.
    pub renewal: Price,
    /// Transfer fee.
    pub transfer: Price,
}

/// The fees of one TLD as the wire sends them: formatted decimal strings.
#[derive(Debug, Clone)]
pub struct TLDPricingWire {
    /// Registration fee.
    pub registration: String,
    /// Renewal fee.
    pub renewal: String,
    /// Transfer fee.
    pub transfer: String,
}

impl TLDPricing {
    /// Parses the three wire fee strings into exact amounts. A single
    /// failure fails the whole value, carrying the first offending string in
    /// field order.
    pub fn from_wire(w: &TLDPricingWire) -> (r: Result<TLDPricing, ParseError>)
        ensures
            r is Ok <==> price_ok(w.registration@) && price_ok(w.renewal@) && price_ok(
                w.transfer@,
            ),
            r matches Ok(p) ==> price_matches(w.registration@, p.registration) && price_matches(
                w.renewal@,
                p.renewal,
            ) && price_matches(w.transfer@, p.transfer),
            r matches Err(e) ==> e.raw@ == if !price_ok(w.registration@) {
                w.registration@
            } else if !price_ok(w.renewal@) {
                w.renewal@
            } else {
                w.transfer@
            },
    {
        let registration = match parse_price(w.registration.as_str()) {
            Ok(p) => p,
            Err(e) => {
                return Err(e);
            },
        };
        let renewal = match parse_price(w.renewal.as_str()) {
            Ok(p) => p,
            Err(e) => {
                return Err(e);
            },
        };
        let transfer = match parse_price(w.transfer.as_str()) {
            Ok(p) => p,
            Err(e) => {
                return Err(e);
            },
        };
        Ok(TLDPricing { registration, renewal, transfer })
    }
}

/// The pricing table: each TLD with its fees, sorted by TLD name, plus the
/// returned status.
#[derive(Debug)]
pub struct TLDPricingResponse {
    /// Each TLD's fees, keyed and sorted by TLD name.
    pub pricing: Vec<(String, TLDPricing)>,
    /// The remote service's status.
    pub status: Status,
}

/// The views of the wire entries: each TLD name with its three fee strings.
pub open spec fn wire_entry_views(s: Seq<(String, TLDPricingWire)>) -> Seq<
    (Seq<char>, (Seq<char>, Seq<char>, Seq<char>)),
> {
    s.map_values(
        |e: (String, TLDPricingWire)| (e.0@, (e.1.registration@, e.1.renewal@, e.1.transfer@)),
    )
}

/// `x` placed into `s` before the first entry whose key is greater.
pub open spec fn insert_sorted<V>(s: Seq<(Seq<char>, V)>, x: (Seq<char>, V)) -> Seq<
    (Seq<char>, V),
>
    decreases s.len(),
{
    if s.len() == 0 {
        seq![x]
    } else if lex_lt(x.0, s[0].0) {
        seq![x] + s
    } else {
        seq![s[0]] + insert_sorted(s.drop_first(), x)
    }
}

/// The entries brought into ascending key order, one insertion at a time.
pub open spec fn sort_entries<V>(s: Seq<(Seq<char>, V)>) -> Seq<(Seq<char>, V)>
    decreases s.len(),
{
    if s.len() == 0 {
        Seq::empty()
    } else {
        insert_sorted(sort_entries(s.drop_last()), s.last())
    }
}

/// True when all three wire fee strings of `w` parse.
pub open spec fn wire_ok(w: (Seq<char>, Seq<char>, Seq<char>)) -> bool {
    price_ok(w.0) && price_ok(w.1) && price_ok(w.2)
}

/// True when `p` holds exactly the amounts the wire strings `w` denote.
pub open spec fn wire_parsed(w: (Seq<char>, Seq<char>, Seq<char>), p: TLDPricing) -> bool {
    price_matches(w.0, p.registration) && price_matches(w.1, p.renewal) && price_matches(
        w.2,
        p.transfer,
    )
}

proof fn lemma_insert_sorted_at<V>(s: Seq<(Seq<char>, V)>, x: (Seq<char>, V), j: int)
    requires
        0 <= j <= s.len(),
        forall|i: int| 0 <= i < j ==> !lex_lt(x.0, (#[trigger] s[i]).0),
        j < s.len() ==> lex_lt(x.0, s[j].0),
    ensures
        insert_sorted(s, x) == s.take(j) + seq![x] + s.skip(j),
    decreases s.len(),
{
    if s.len() == 0 {
        assert(insert_sorted(s, x) =~= s.take(j) + seq![x] + s.skip(j));
    } else if j == 0 {
        assert(insert_sorted(s, x) =~= s.take(0) + seq![x] + s.skip(0));
    } else {
        assert(!lex_lt(x.0, s[0].0));
        lemma_insert_sorted_at(s.drop_first(), x, j - 1);
        assert(insert_sorted(s, x) =~= s.take(j) + seq![x] + s.skip(j)) by {
            assert(s.drop_first().take(j - 1) =~= s.take(j).drop_first());
            assert(s.drop_first().skip(j - 1) =~= s.skip(j));
        }
    }
}

proof fn lemma_insert_sorted_elements<V>(s: Seq<(Seq<char>, V)>, x: (Seq<char>, V))
    ensures
        insert_sorted(s, x).len() == s.len() + 1,
        forall|j: int|
            0 <= j < insert_sorted(s, x).len() ==> (#[trigger] insert_sorted(s, x)[j]) == x
                || exists|i: int| 0 <= i < s.len() && insert_sorted(s, x)[j] == s[i],
    decreases s.len(),
{
    if s.len() == 0 {
    } else if lex_lt(x.0, s[0].0) {
    } else {
        lemma_insert_sorted_elements(s.drop_first(), x);
        assert forall|j: int| 0 <= j < insert_sorted(s, x).len() implies (#[trigger] insert_sorted(
            s,
            x,
        )[j]) == x || exists|i: int| 0 <= i < s.len() && insert_sorted(s, x)[j] == s[i] by {
            if j == 0 {
                assert(insert_sorted(s, x)[0] == s[0]);
            } else {
                let e = insert_sorted(s.drop_first(), x)[j - 1];
                assert(insert_sorted(s, x)[j] == e);
                if e != x {
                    let i0 = choose|i: int|
                        0 <= i < s.drop_first().len() && insert_sorted(s.drop_first(), x)[j - 1]
                            == s.drop_first()[i];
                    assert(s.drop_first()[i0] == s[i0 + 1]);
                }
            }
        }
    }
}

proof fn lemma_sort_entries_elements<V>(s: Seq<(Seq<char>, V)>)
    ensures
        sort_entries(s).len() == s.len(),
        forall|j: int|
            0 <= j < s.len() ==> exists|i: int|
                0 <= i < s.len() && #[trigger] sort_entries(s)[j] == s[i],
    decreases s.len(),
{
    if s.len() > 0 {
        lemma_sort_entries_elements(s.drop_last());
        lemma_insert_sorted_elements(sort_entries(s.drop_last()), s.last());
        assert forall|j: int| 0 <= j < s.len() implies exists|i: int|
            0 <= i < s.len() && #[trigger] sort_entries(s)[j] == s[i] by {
            let e = sort_entries(s)[j];
            if e == s.last() {
                assert(sort_entries(s)[j] == s[s.len() - 1]);
            } else {
                let i0 = choose|i: int|
                    0 <= i < sort_entries(s.drop_last()).len() && sort_entries(s)[j]
                        == sort_entries(s.drop_last())[i];
                let i1 = choose|i: int|
                    0 <= i < s.drop_last().len() && sort_entries(s.drop_last())[i0] == s.drop_last(
                    )[i];
                assert(s.drop_last()[i1] == s[i1]);
            }
        }
    }
}

/// Builds the typed pricing table from the decoded wire document: the status
/// token is decoded, each entry's three fee strings are parsed exactly, and
/// the entries are brought into ascending TLD order for deterministic
/// iteration and display. Fails — as a whole, building no table — on an
/// unknown status token or any fee string that does not parse.
#[verifier::loop_isolation(false)]
pub fn decode_tld_pricing(entries: Vec<(String, TLDPricingWire)>, status_token: &str) -> (r:
    Result<TLDPricingResponse, DecodeError>)
    ensures
        r is Ok <==> (upper_is(status_token@, "SUCCESS"@) || upper_is(status_token@, "ERROR"@))
            && (forall|i: int|
            0 <= i < entries@.len() ==> wire_ok((#[trigger] wire_entry_views(entries@)[i]).1)),
        r matches Ok(resp) ==> {
            let sorted = sort_entries(wire_entry_views(entries@));
            &&& resp.pricing@.len() == entries@.len()
            &&& forall|i: int|
                0 <= i < sorted.len() ==> (#[trigger] resp.pricing@[i]).0@ == sorted[i].0
                    && wire_parsed(sorted[i].1, resp.pricing@[i].1)
            &&& (resp.status == Status::Success <==> upper_is(status_token@, "SUCCESS"@))
        },
        r matches Err(e) ==> match e {
            DecodeError::UnknownStatus(t) => t@ == status_token@ && !upper_is(
                status_token@,
                "SUCCESS"@,
            ) && !upper_is(status_token@, "ERROR"@),
            DecodeError::Price(pe) => exists|i: int|
                0 <= i < entries@.len() && !wire_ok(
                    (#[trigger] wire_entry_views(entries@)[i]).1,
                ),
            _ => false,
        },
{
    let status = match crate::decode_status(status_token) {
        Ok(s) => s,
        Err(e) => {
            return Err(e);
        },
    };
    let ghost origw = wire_entry_views(entries@);
    proof {
        assert(origw == wire_entry_views(entries@));
    }
    let mut rest = entries;
    let mut in_order: Vec<(String, TLDPricingWire)> = Vec::new();
    proof {
        assert(origw.take(0) =~= Seq::<(Seq<char>, (Seq<char>, Seq<char>, Seq<char>))>::empty());
        assert(origw.skip(0) =~= origw);
    }
    while rest.len() > 0
        invariant
            origw == wire_entry_views(entries@),
            in_order@.len() + rest@.len() == origw.len(),
            wire_entry_views(rest@) == origw.skip(in_order@.len() as int),
            wire_entry_views(in_order@) == sort_entries(origw.take(in_order@.len() as int)),
        decreases rest@.len(),
    {
        let ghost k: int = in_order@.len() as int;
        let ghost pre = wire_entry_views(in_order@);
        let ghost oldrest = rest@;
        let e = rest.remove(0);
        let ghost xv = (e.0@, (e.1.registration@, e.1.renewal@, e.1.transfer@));
        proof {
            assert(wire_entry_views(oldrest)[0] == xv);
            assert(origw.skip(k)[0] == origw[k]);
            assert(xv == origw[k]);
            assert(rest@ =~= oldrest.skip(1));
            assert forall|i: int| 0 <= i < rest@.len() implies #[trigger] wire_entry_views(
                rest@,
            )[i] == origw.skip(k + 1)[i] by {
                assert(rest@[i] == oldrest[i + 1]);
                assert(wire_entry_views(oldrest)[i + 1] == origw.skip(k)[i + 1]);
                assert(origw.skip(k)[i + 1] == origw[k + 1 + i]);
                assert(origw.skip(k + 1)[i] == origw[k + 1 + i]);
            }
            assert(wire_entry_views(rest@) =~= origw.skip(k + 1));
        }
        let mut j: usize = 0;
        let mut found = false;
        while !found && j < in_order.len()
            invariant
                j <= in_order@.len(),
                wire_entry_views(in_order@) == pre,
                forall|i: int| 0 <= i < j ==> !lex_lt(xv.0, (#[trigger] pre[i]).0),
                found ==> j < in_order@.len() && lex_lt(xv.0, pre[j as int].0),
            decreases (in_order@.len() - j) * 2 + (if found {
                0int
            } else {
                1int
            }),
        {
            let is_less = crate::text::str_lt(e.0.as_str(), in_order[j].0.as_str());
            proof {
                assert(is_less == lex_lt(e.0@, in_order@[j as int].0@));
                assert(xv.0 == e.0@);
                assert(pre[j as int].0 == in_order@[j as int].0@);
            }
            if is_less {
                found = true;
            } else {
                j = j + 1;
            }
        }
        in_order.insert(j, e);
        proof {
            lemma_insert_sorted_at(pre, xv, j as int);
            assert(wire_entry_views(in_order@) =~~= pre.take(j as int) + seq![xv] + pre.skip(
                j as int,
            ));
            assert(origw.take(k + 1).drop_last() =~= origw.take(k));
            assert(origw.take(k + 1).last() == xv);
            assert(wire_entry_views(in_order@) == sort_entries(origw.take(k + 1)));
        }
    }
    proof {
        assert(origw.take(origw.len() as int) =~= origw);
    }
    let ghost sorted = sort_entries(origw);
    let mut pricing: Vec<(String, TLDPricing)> = Vec::new();
    let n = in_order.len();
    for idx in 0..n
        invariant
            origw == wire_entry_views(entries@),
            n == in_order@.len() == origw.len(),
            wire_entry_views(in_order@) == sorted,
            sorted == sort_entries(origw),
            pricing@.len() == idx,
            forall|i: int| 0 <= i < idx ==> wire_ok((#[trigger] sorted[i]).1),
            forall|i: int|
                0 <= i < idx ==> (#[trigger] pricing@[i]).0@ == sorted[i].0 && wire_parsed(
                    sorted[i].1,
                    pricing@[i].1,
                ),
    {
        proof {
            assert(wire_entry_views(in_order@)[idx as int] == sorted[idx as int]);
        }
        match TLDPricing::from_wire(&in_order[idx].1) {
            Ok(p) => {
                let name = in_order[idx].0.clone();
                pricing.push((name, p));
            },
            Err(pe) => {
                proof {
                    lemma_sort_entries_elements(origw);
                    assert(!wire_ok(sorted[idx as int].1));
                    let i0 = choose|i: int|
                        0 <= i < origw.len() && sort_entries(origw)[idx as int] == origw[i];
                    assert(!wire_ok((wire_entry_views(entries@)[i0]).1));
                }
                return Err(DecodeError::Price(pe));
            },
        }
    }
    proof {
        lemma_sort_entries_elements(origw);
        assert forall|i: int| 0 <= i < entries@.len() implies wire_ok(
            (#[trigger] wire_entry_views(entries@)[i]).1,
        ) by {
            assert(origw[i] == wire_entry_views(entries@)[i]);
            assert(exists|j: int| 0 <= j < origw.len() && #[trigger] sort_entries(origw)[j] == origw[i]) by {
                lemma_sort_reaches_all(origw, i);
            }
            let j0 = choose|j: int| 0 <= j < origw.len() && #[trigger] sort_entries(origw)[j] == origw[i];
            assert(wire_ok(sorted[j0].1));
        }
    }
    Ok(TLDPricingResponse { pricing, status })
}

/// The views of the typed pricing entries.
pub open spec fn entry_views(s: Seq<(String, TLDPricing)>) -> Seq<(Seq<char>, TLDPricing)> {
    s.map_values(|e: (String, TLDPricing)| (e.0@, e.1))
}

/// What one TLD contributes to the pricing rendering: its name and its
/// three indented fee lines.
pub open spec fn pricing_block(tld: Seq<char>, p: TLDPricing) -> Seq<char> {
    seq!['\n'] + tld + ":\n  Registration: "@ + price_text(
        p.registration.mantissa as nat,
        p.registration.scale as nat,
    ) + "\n  Renewal: "@ + price_text(p.renewal.mantissa as nat, p.renewal.scale as nat)
        + "\n  Transfer: "@ + price_text(p.transfer.mantissa as nat, p.transfer.scale as nat)
}

/// The blocks of all entries, in table order.
pub open spec fn pricing_blocks(s: Seq<(Seq<char>, TLDPricing)>) -> Seq<char>
    decreases s.len(),
{
    if s.len() == 0 {
        Seq::empty()
    } else {
        pricing_blocks(s.drop_last()) + pricing_block(s.last().0, s.last().1)
    }
}

/// What [`TLDPricingResponse::render`] produces: the status line, then each
/// TLD's block.
pub open spec fn pricing_rendering(r: TLDPricingResponse) -> Seq<char> {
    "Status: "@ + status_token(r.status) + pricing_blocks(entry_views(r.pricing@))
}

impl TLDPricingResponse {
    /// The rendering shown to users: the status, then each TLD with its
    /// three indented fee lines, in table order.
    #[verifier::loop_isolation(false)]
    #[verifier::rlimit(60)]
    pub fn render(&self) -> (r: String)
        ensures
            r@ == pricing_rendering(*self),
    {
        let mut r = String::from_str("Status: ");
        r.append(self.status.render().as_str());
        let n = self.pricing.len();
        for i in 0..n
            invariant
                n == self.pricing@.len(),
                r@ == "Status: "@ + status_token(self.status) + pricing_blocks(
                    entry_views(self.pricing@).take(i as int),
                ),
        {
            r.append("\n");
            r.append(self.pricing[i].0.as_str());
            r.append(":\n  Registration: ");
            r.append(self.pricing[i].1.registration.render().as_str());
            r.append("\n  Renewal: ");
            r.append(self.pricing[i].1.renewal.render().as_str());
            r.append("\n  Transfer: ");
            r.append(self.pricing[i].1.transfer.render().as_str());
            proof {
                reveal_strlit("\n");
                assert("\n"@ =~= seq!['\n']);
                let ev = entry_views(self.pricing@);
                assert(ev[i as int] == (self.pricing@[i as int].0@, self.pricing@[i as int].1));
                assert(ev.take(i + 1).drop_last() =~= ev.take(i as int));
                assert(ev.take(i + 1).last() == ev[i as int]);
                assert(r@ =~= "Status: "@ + status_token(self.status) + pricing_blocks(
                    ev.take(i + 1),
                ));
            }
        }
        proof {
            assert(entry_views(self.pricing@).take(n as int) =~= entry_views(self.pricing@));
        }
        r
    }
}

/// The ping envelope: the returned status and the caller's address as the
/// remote service saw it.
#[derive(Debug, Clone, Copy, PartialEq, Eq)]
pub struct PingResponse {
    /// The remote service's status.
    pub status: Status,
    /// The IP address of the pinger.
    pub your_ip: IpAddr,
}

/// What [`PingResponse::render`] produces: the status line and the address.
pub open spec fn ping_rendering(r: PingResponse) -> Seq<char> {
    "Status: "@ + status_token(r.status) + "\nYour IP: "@ + ip_text(r.your_ip)
}

impl PingResponse {
    /// The rendering shown to users.
    pub fn render(&self) -> (r: String)
        ensures
            r@ == ping_rendering(*self),
    {
        let mut r = String::from_str("Status: ");
        r.append(self.status.render().as_str());
        r.append("\nYour IP: ");
        r.append(self.your_ip.render().as_str());
        proof {
            assert(r@ =~= ping_rendering(*self));
        }
        r
    }
}

/// Builds the typed ping envelope from the decoded wire document: the
/// status token is decoded, the already-parsed address carried through.
pub fn decode_ping(token: &str, your_ip: IpAddr) -> (r: Result<PingResponse, DecodeError>)
    ensures
        r is Ok <==> upper_is(token@, "SUCCESS"@) || upper_is(token@, "ERROR"@),
        r matches Ok(p) ==> (p.status == Status::Success <==> upper_is(token@, "SUCCESS"@))
            && p.your_ip == your_ip,
        r matches Err(e) ==> e matches DecodeError::UnknownStatus(t) && t@ == token@,
{
    match crate::decode_status(token) {
        Ok(status) => Ok(PingResponse { status, your_ip }),
        Err(e) => Err(e),
    }
}

/// The URL the pricing table is fetched from; the one unauthenticated
/// operation.
pub fn pricing_url() -> (r: String)
    ensures
        r@ == "https://api.porkbun.com/api/json/v3/pricing/get"@,
{
    String::from_str("https://api.porkbun.com/api/json/v3/pricing/get")
}

/// The URL a ping is posted to.
pub fn ping_url() -> (r: String)
    ensures
        r@ == "https://api.porkbun.com/api/json/v3/ping"@,
{
    String::from_str("https://api.porkbun.com/api/json/v3/ping")
}

proof fn lemma_sort_reaches_all<V>(s: Seq<(Seq<char>, V)>, i: int)
    requires
        0 <= i < s.len(),
    ensures
        exists|j: int| 0 <= j < s.len() && #[trigger] sort_entries(s)[j] == s[i],
    decreases s.len(),
{
    lemma_insert_sorted_elements(sort_entries(s.drop_last()), s.last());
    lemma_sort_entries_elements(s.drop_last());
    let base = sort_entries(s.drop_last());
    assert(sort_entries(s) == insert_sorted(base, s.last()));
    if i == s.len() - 1 {
        lemma_insert_reaches(base, s.last());
        let j0 = choose|j: int|
            0 <= j < insert_sorted(base, s.last()).len() && #[trigger] insert_sorted(
                base,
                s.last(),
            )[j] == s.last();
        assert(sort_entries(s)[j0] == s[i]);
    } else {
        lemma_sort_reaches_all(s.drop_last(), i);
        let i0 = choose|j: int|
            0 <= j < s.drop_last().len() && #[trigger] sort_entries(s.drop_last())[j]
                == s.drop_last()[i];
        lemma_insert_keeps(base, s.last(), i0);
        let j0 = choose|j: int|
            0 <= j < insert_sorted(base, s.last()).len() && #[trigger] insert_sorted(
                base,
                s.last(),
            )[j] == base[i0];
        assert(s.drop_last()[i] == s[i]);
        assert(sort_entries(s)[j0] == s[i]);
    }
}

proof fn lemma_insert_reaches<V>(s: Seq<(Seq<char>, V)>, x: (Seq<char>, V))
    ensures
        exists|j: int| 0 <= j < insert_sorted(s, x).len() && #[trigger] insert_sorted(s, x)[j] == x,
    decreases s.len(),
{
    if s.len() == 0 {
        assert(insert_sorted(s, x)[0] == x);
    } else if lex_lt(x.0, s[0].0) {
        assert(insert_sorted(s, x)[0] == x);
    } else {
        lemma_insert_reaches(s.drop_first(), x);
        let j0 = choose|j: int|
            0 <= j < insert_sorted(s.drop_first(), x).len() && #[trigger] insert_sorted(
                s.drop_first(),
                x,
            )[j] == x;
        assert(insert_sorted(s, x)[j0 + 1] == x);
    }
}

proof fn lemma_insert_keeps<V>(s: Seq<(Seq<char>, V)>, x: (Seq<char>, V), i: int)
    requires
        0 <= i < s.len(),
    ensures
        exists|j: int| 0 <= j < insert_sorted(s, x).len() && #[trigger] insert_sorted(s, x)[j] == s[i],
    decreases s.len(),
{
    if lex_lt(x.0, s[0].0) {
        assert(insert_sorted(s, x)[i + 1] == s[i]);
    } else if i == 0 {
        assert(insert_sorted(s, x)[0] == s[0]);
    } else {
        lemma_insert_keeps(s.drop_first(), x, i - 1);
        let j0 = choose|j: int|
            0 <= j < insert_sorted(s.drop_first(), x).len() && #[trigger] insert_sorted(
                s.drop_first(),
                x,
            )[j] == s.drop_first()[i - 1];
        assert(s.drop_first()[i - 1] == s[i]);
        assert(insert_sorted(s, x)[j0 + 1] == s[i]);
    }
}

/// True when the entries' keys stand in ascending order: no later key is
/// lexicographically less than an earlier one.
pub open spec fn sorted_keys<V>(s: Seq<(Seq<char>, V)>) -> bool {
    forall|i: int, j: int|
        0 <= i < j < s.len() ==> !lex_lt((#[trigger] s[j]).0, (#[trigger] s[i]).0)
}

proof fn lemma_lex_lt_irrefl(a: Seq<char>)
    ensures
        !lex_lt(a, a),
    decreases a.len(),
{
    if a.len() > 0 {
        lemma_lex_lt_irrefl(a.drop_first());
    }
}

proof fn lemma_lex_lt_trans(a: Seq<char>, b: Seq<char>, c: Seq<char>)
    requires
        lex_lt(a, b),
        lex_lt(b, c),
    ensures
        lex_lt(a, c),
    decreases a.len() + b.len() + c.len(),
{
    if a.len() > 0 && b.len() > 0 && c.len() > 0 {
        if a[0] == b[0] && b[0] == c[0] {
            lemma_lex_lt_trans(a.drop_first(), b.drop_first(), c.drop_first());
        }
    }
}

proof fn lemma_insert_sorted_keeps_sorted<V>(s: Seq<(Seq<char>, V)>, x: (Seq<char>, V))
    requires
        sorted_keys(s),
    ensures
        sorted_keys(insert_sorted(s, x)),
    decreases s.len(),
{
    if s.len() == 0 {
    } else if lex_lt(x.0, s[0].0) {
        let out = seq![x] + s;
        assert forall|i: int, j: int| 0 <= i < j < out.len() implies !lex_lt(
            (#[trigger] out[j]).0,
            (#[trigger] out[i]).0,
        ) by {
            if i == 0 {
                assert(out[j] == s[j - 1]);
                if lex_lt(s[j - 1].0, x.0) {
                    lemma_lex_lt_trans(s[j - 1].0, x.0, s[0].0);
                    if j == 1 {
                        lemma_lex_lt_irrefl(s[0].0);
                    }
                }
            } else {
                assert(out[i] == s[i - 1] && out[j] == s[j - 1]);
            }
        }
    } else {
        lemma_insert_sorted_keeps_sorted(s.drop_first(), x);
        lemma_insert_sorted_elements(s.drop_first(), x);
        let rest = insert_sorted(s.drop_first(), x);
        let out = seq![s[0]] + rest;
        assert(insert_sorted(s, x) == out);
        assert forall|i: int, j: int| 0 <= i < j < out.len() implies !lex_lt(
            (#[trigger] out[j]).0,
            (#[trigger] out[i]).0,
        ) by {
            if i == 0 {
                assert(out[j] == rest[j - 1]);
                if rest[j - 1] == x {
                    assert(!lex_lt(x.0, s[0].0));
                } else {
                    let k = choose|k: int|
                        0 <= k < s.drop_first().len() && rest[j - 1] == s.drop_first()[k];
                    assert(s.drop_first()[k] == s[k + 1]);
                    assert(!lex_lt(s[k + 1].0, s[0].0));
                }
            } else {
                assert(out[i] == rest[i - 1] && out[j] == rest[j - 1]);
            }
        }
    }
}

/// Law: bringing the entries into order always yields key-sorted output, so
/// the decoded pricing table iterates and renders its TLDs in ascending
/// order, whatever order the wire sent them in.
pub proof fn lemma_sort_entries_sorted<V>(s: Seq<(Seq<char>, V)>)
    ensures
        sorted_keys(sort_entries(s)),
    decreases s.len(),
{
    if s.len() > 0 {
        lemma_sort_entries_sorted(s.drop_last());
        lemma_insert_sorted_keeps_sorted(sort_entries(s.drop_last()), s.last());
    }
}

} // verus!
