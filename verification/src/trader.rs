//! Startup computations: turning the exchange's symbol universe into trading
//! pairs, and enumerating every triangular cycle through the configured base
//! asset. Fetching that universe from the exchange is I/O and happens outside
//! the library; the rows arrive here as plain values.

use crate::trading_pair::TradingPair;
use crate::triangular_relationship::RelEntry;
use crate::triangular_relationship::TriangularRelationship;
use crate::triangular_relationship::spec_other;
use crate::triangular_relationship::wf_triangle;
use vstd::prelude::*;
use vstd::string::StringExecFns;

verus! {

/// One row of the exchange's symbol metadata, already decoded: the step is in
/// fixed-point ticks and `trading` says whether the market is live.
#[derive(Debug, Clone)]
pub struct SymbolInfo {
    pub symbol: String,
    pub base_asset: String,
    pub quote_asset: String,
    pub trading: bool,
    pub step: u64,
}

impl SymbolInfo {
    /// A live row must carry a positive step and two distinct assets.
    pub open spec fn wf(&self) -> bool {
        self.trading ==> self.step > 0 && self.base_asset@ != self.quote_asset@
    }
}

/// Whether a pair was built from a row: same identity, fresh book fields.
pub open spec fn pair_of_row(p: TradingPair, row: SymbolInfo) -> bool {
    &&& p.symbol@ == row.symbol@
    &&& p.base_asset@ == row.base_asset@
    &&& p.quote_asset@ == row.quote_asset@
    &&& p.step == row.step
    &&& !p.initialized
    &&& p.asks@.len() == 0
    &&& p.bids@.len() == 0
    &&& p.timestamp == 0
}

/// The rows that are live, in order.
pub open spec fn trading_rows(rows: Seq<SymbolInfo>) -> Seq<SymbolInfo> {
    rows.filter(|r: SymbolInfo| r.trading)
}

/// Build one pair per live row, keeping the exchange's order.
#[verifier::spinoff_prover]
pub fn build_pairs(rows: &Vec<SymbolInfo>) -> (r: Vec<TradingPair>)
    requires
        forall|i: int| 0 <= i < rows@.len() ==> (#[trigger] rows@[i]).wf(),
    ensures
        r@.len() == trading_rows(rows@).len(),
        forall|i: int|
            0 <= i < r@.len() ==> pair_of_row(#[trigger] r@[i], trading_rows(rows@)[i]),
        forall|i: int| 0 <= i < r@.len() ==> (#[trigger] r@[i]).wf(),
{
    let mut r: Vec<TradingPair> = Vec::new();
    let mut i: usize = 0;
    proof {
        reveal(Seq::filter);
        assert(rows@.subrange(0, 0).len() == 0);
        assert(trading_rows(rows@.subrange(0, 0)).len() == 0);
    }
    while i < rows.len()
        invariant
            i <= rows@.len(),
            forall|k: int| 0 <= k < rows@.len() ==> (#[trigger] rows@[k]).wf(),
            r@.len() == trading_rows(rows@.subrange(0, i as int)).len(),
            forall|k: int|
                0 <= k < r@.len() ==> pair_of_row(
                    #[trigger] r@[k],
                    trading_rows(rows@.subrange(0, i as int))[k],
                ),
            forall|k: int| 0 <= k < r@.len() ==> (#[trigger] r@[k]).wf(),
        decreases rows@.len() - i,
    {
        let row = &rows[i];
        proof {
            reveal(Seq::filter);
            let pre = rows@.subrange(0, i as int);
            let ext = rows@.subrange(0, i as int + 1);
            assert(ext.drop_last() =~= pre);
            assert(ext.last() == rows@[i as int]);
            assert(trading_rows(ext) == if rows@[i as int].trading {
                trading_rows(pre).push(rows@[i as int])
            } else {
                trading_rows(pre)
            });
        }
        if row.trading {
            let pair = TradingPair::new(
                row.symbol.clone(),
                row.base_asset.clone(),
                row.quote_asset.clone(),
                row.step,
            );
            r.push(pair);
        }
        i = i + 1;
    }
    proof {
        assert(rows@.subrange(0, rows@.len() as int) =~= rows@);
    }
    r
}

/// Whether a pair joins exactly the unordered asset pair `{x, y}`; this is
/// how the builder recognizes the middle leg of a cycle.
pub open spec fn match_middle(p: TradingPair, x: Seq<char>, y: Seq<char>) -> bool {
    ||| (p.quote_asset@ == y && p.base_asset@ == x)
    ||| (p.quote_asset@ == x && p.base_asset@ == y)
}

/// The first index at or after `from` whose pair joins `{x, y}`, or `-1`.
pub open spec fn first_middle(
    pairs: Seq<TradingPair>,
    x: Seq<char>,
    y: Seq<char>,
    from: int,
) -> int
    decreases pairs.len() - from,
{
    if from < 0 || from >= pairs.len() {
        -1
    } else if match_middle(pairs[from], x, y) {
        from
    } else {
        first_middle(pairs, x, y, from + 1)
    }
}

/// Whether entry `e` is the cycle the builder emits for starter indices
/// `i < j`: the pairs at `i`, at the first matching middle, and at `j`, with
/// the registered name joining their symbols.
#[verifier::opaque]
pub open spec fn entry_for(
    e: RelEntry,
    pairs: Seq<TradingPair>,
    i: int,
    j: int,
    base: Seq<char>,
) -> bool {
    let x = spec_other(&pairs[i], base);
    let y = spec_other(&pairs[j], base);
    let k = first_middle(pairs, x, y, 0);
    &&& k >= 0
    &&& e.relationship.start.same_pair(&pairs[i])
    &&& e.relationship.middle.same_pair(&pairs[k])
    &&& e.relationship.end.same_pair(&pairs[j])
    &&& e.relationship.base@ == base
    &&& e.relationship.wf()
    &&& e.key@ == pairs[i].symbol@ + " -> "@ + pairs[k].symbol@ + " -> "@ + pairs[j].symbol@
}

/// Whether some vector element's view is `sym`.
pub open spec fn symbols_contain(s: Seq<String>, sym: Seq<char>) -> bool {
    exists|u: int| 0 <= u < s.len() && (#[trigger] s[u])@ == sym
}

/// Whether a relationship uses `sym` as one of its three legs' symbols.
pub open spec fn rel_uses_symbol(r: TriangularRelationship, sym: Seq<char>) -> bool {
    ||| r.start.symbol@ == sym
    ||| r.middle.symbol@ == sym
    ||| r.end.symbol@ == sym
}

/// No symbol occurs twice in the subscription list.
pub open spec fn symbols_distinct(s: Seq<String>) -> bool {
    forall|u1: int, u2: int| 0 <= u1 < u2 < s.len() ==> (#[trigger] s[u1])@ != (#[trigger] s[u2])@
}

/// Append a symbol to the subscription list unless it is already there.
#[verifier::spinoff_prover]
fn push_unique(sockets: &mut Vec<String>, symbol: String)
    ensures
        symbols_contain(final(sockets)@, symbol@),
        forall|s: Seq<char>|
            (#[trigger] symbols_contain(final(sockets)@, s)) == (symbols_contain(
                old(sockets)@,
                s,
            ) || s == symbol@),
        symbols_distinct(old(sockets)@) ==> symbols_distinct(final(sockets)@),
        old(sockets)@.len() <= final(sockets)@.len(),
        forall|u: int| 0 <= u < old(sockets)@.len() ==> final(sockets)@[u] == old(sockets)@[u],
        forall|u: int|
            old(sockets)@.len() <= u < final(sockets)@.len() ==> (#[trigger] final(sockets)@[u])@
                == symbol@,
{
    let mut u: usize = 0;
    while u < sockets.len()
        invariant
            u <= sockets@.len(),
            forall|k: int| 0 <= k < u ==> (#[trigger] sockets@[k])@ != symbol@,
        decreases sockets@.len() - u,
    {
        if crate::str_eq(sockets[u].as_str(), symbol.as_str()) {
            proof {
                assert(sockets@[u as int]@ == symbol@);
                assert(symbols_contain(sockets@, symbol@));
            }
            return ;
        }
        u = u + 1;
    }
    sockets.push(symbol);
    proof {
        assert(sockets@[sockets@.len() - 1]@ == symbol@);
        assert(symbols_contain(sockets@, symbol@));
        assert forall|s: Seq<char>|
            (#[trigger] symbols_contain(sockets@, s)) == (symbols_contain(
                old(sockets)@,
                s,
            ) || s == symbol@) by {
            if symbols_contain(old(sockets)@, s) {
                let w = choose|w: int|
                    0 <= w < old(sockets)@.len() && (#[trigger] old(sockets)@[w])@ == s;
                assert(sockets@[w]@ == s);
            }
            if symbols_contain(sockets@, s) && s != symbol@ {
                let w = choose|w: int| 0 <= w < sockets@.len() && (#[trigger] sockets@[w])@ == s;
                assert(old(sockets)@[w]@ == s);
            }
        }
    }
}

/// Whether the builder owes a cycle for starter indices `i < j`: both pairs
/// touch the base asset and some pair joins their two other assets.
#[verifier::opaque]
pub open spec fn need_cycle(pairs: Seq<TradingPair>, i: int, j: int, base: Seq<char>) -> bool {
    &&& 0 <= i < j < pairs.len()
    &&& pairs[i].asset_set().contains(base)
    &&& pairs[j].asset_set().contains(base)
    &&& first_middle(pairs, spec_other(&pairs[i], base), spec_other(&pairs[j], base), 0) >= 0
}

/// Whether the output already holds the cycle for `i < j`.
pub open spec fn emitted(
    rels: Seq<RelEntry>,
    pairs: Seq<TradingPair>,
    i: int,
    j: int,
    base: Seq<char>,
) -> bool {
    exists|t: int| 0 <= t < rels.len() && entry_for(#[trigger] rels[t], pairs, i, j, base)
}

/// A scan that found its first match at `k` agrees with [`first_middle`].
#[verifier::spinoff_prover]
proof fn lemma_first_middle_found(
    pairs: Seq<TradingPair>,
    x: Seq<char>,
    y: Seq<char>,
    from: int,
    k: int,
)
    requires
        0 <= from <= k < pairs.len(),
        match_middle(pairs[k], x, y),
        forall|m: int| from <= m < k ==> !match_middle(#[trigger] pairs[m], x, y),
    ensures
        first_middle(pairs, x, y, from) == k,
    decreases k - from,
{
    if from < k {
        lemma_first_middle_found(pairs, x, y, from + 1, k);
    }
}

/// A scan that found no match agrees with [`first_middle`].
#[verifier::spinoff_prover]
proof fn lemma_first_middle_none(pairs: Seq<TradingPair>, x: Seq<char>, y: Seq<char>, from: int)
    requires
        0 <= from,
        forall|m: int| from <= m < pairs.len() ==> !match_middle(#[trigger] pairs[m], x, y),
    ensures
        first_middle(pairs, x, y, from) == -1,
    decreases pairs.len() - from,
{
    if from < pairs.len() {
        lemma_first_middle_none(pairs, x, y, from + 1);
    }
}

/// Find the first pair joining `{x, y}`, scanning in listing order.
#[verifier::spinoff_prover]
fn find_middle(pairs: &Vec<TradingPair>, x: &str, y: &str) -> (r: Option<usize>)
    ensures
        match r {
            Some(k) => k < pairs@.len() && match_middle(pairs@[k as int], x@, y@) && first_middle(
                pairs@,
                x@,
                y@,
                0,
            ) == k,
            None => first_middle(pairs@, x@, y@, 0) == -1,
        },
{
    let mut k: usize = 0;
    while k < pairs.len()
        invariant
            k <= pairs@.len(),
            forall|m: int| 0 <= m < k ==> !match_middle(#[trigger] pairs@[m], x@, y@),
        decreases pairs@.len() - k,
    {
        let p = &pairs[k];
        if (crate::str_eq(p.quote_asset.as_str(), y) && crate::str_eq(p.base_asset.as_str(), x))
            || (crate::str_eq(p.quote_asset.as_str(), x) && crate::str_eq(
            p.base_asset.as_str(),
            y,
        )) {
            proof {
                lemma_first_middle_found(pairs@, x@, y@, 0, k as int);
            }
            return Some(k);
        }
        k = k + 1;
    }
    proof {
        lemma_first_middle_none(pairs@, x@, y@, 0);
    }
    None
}

/// Whether an entry is the builder's cycle for some owed pair of starters.
#[verifier::opaque]
pub open spec fn cycle_entry_ok(e: RelEntry, pairs: Seq<TradingPair>, base: Seq<char>) -> bool {
    exists|i: int, j: int|
        #![trigger need_cycle(pairs, i, j, base)]
        need_cycle(pairs, i, j, base) && entry_for(e, pairs, i, j, base)
}

/// The well-formedness the builder guarantees of each entry's cycle.
#[verifier::opaque]
pub open spec fn entry_wf(e: RelEntry, base: Seq<char>) -> bool {
    &&& e.relationship.wf()
    &&& wf_triangle(
        base,
        &e.relationship.start,
        &e.relationship.middle,
        &e.relationship.end,
    )
}

/// Whether all three leg symbols of an entry are on the subscription list.
#[verifier::opaque]
pub open spec fn entry_symbols_in(e: RelEntry, sockets: Seq<String>) -> bool {
    &&& symbols_contain(sockets, e.relationship.start.symbol@)
    &&& symbols_contain(sockets, e.relationship.middle.symbol@)
    &&& symbols_contain(sockets, e.relationship.end.symbol@)
}

/// Whether some entry uses the symbol `s`.
#[verifier::opaque]
pub open spec fn socket_covered(rels: Seq<RelEntry>, s: Seq<char>) -> bool {
    exists|t: int| 0 <= t < rels.len() && rel_uses_symbol((#[trigger] rels[t]).relationship, s)
}

/// Everything the builder promises of a finished output except completeness:
/// every entry is a sound, well-formed cycle named after its symbols, and the
/// subscription list holds exactly the symbols the entries use, each once.
pub open spec fn builder_sound(
    rels: Seq<RelEntry>,
    sockets: Seq<String>,
    pairs: Seq<TradingPair>,
    base: Seq<char>,
) -> bool {
    &&& forall|t: int|
        0 <= t < rels.len() ==> cycle_entry_ok(#[trigger] rels[t], pairs, base) && entry_wf(
            rels[t],
            base,
        ) && entry_symbols_in(rels[t], sockets)
    &&& forall|u: int| 0 <= u < sockets.len() ==> socket_covered(rels, (#[trigger] sockets[u])@)
    &&& symbols_distinct(sockets)
}

/// A symbol stays on the list when the list only grows.
#[verifier::spinoff_prover]
proof fn lemma_contain_mono(sockets0: Seq<String>, sockets1: Seq<String>, s: Seq<char>)
    requires
        sockets0.len() <= sockets1.len(),
        forall|u: int| 0 <= u < sockets0.len() ==> sockets1[u] == sockets0[u],
        symbols_contain(sockets0, s),
    ensures
        symbols_contain(sockets1, s),
{
    let w = choose|w: int| 0 <= w < sockets0.len() && (#[trigger] sockets0[w])@ == s;
    assert(sockets1[w]@ == s);
}

/// A symbol keeps its user when the entry list only grows.
#[verifier::spinoff_prover]
proof fn lemma_covered_mono(rels0: Seq<RelEntry>, rels1: Seq<RelEntry>, s: Seq<char>)
    requires
        rels0.len() <= rels1.len(),
        forall|t: int| 0 <= t < rels0.len() ==> rels1[t] == rels0[t],
        socket_covered(rels0, s),
    ensures
        socket_covered(rels1, s),
{
    reveal(socket_covered);
    let t = choose|t: int|
        0 <= t < rels0.len() && rel_uses_symbol((#[trigger] rels0[t]).relationship, s)
    ;
    assert(rel_uses_symbol(rels1[t].relationship, s));
}

/// An emitted cycle stays emitted when the entry list only grows.
#[verifier::spinoff_prover]
proof fn lemma_emitted_mono(
    rels0: Seq<RelEntry>,
    rels1: Seq<RelEntry>,
    pairs: Seq<TradingPair>,
    i: int,
    j: int,
    base: Seq<char>,
)
    requires
        rels0.len() <= rels1.len(),
        forall|t: int| 0 <= t < rels0.len() ==> rels1[t] == rels0[t],
        emitted(rels0, pairs, i, j, base),
    ensures
        emitted(rels1, pairs, i, j, base),
{
    let t = choose|t: int|
        0 <= t < rels0.len() && entry_for(#[trigger] rels0[t], pairs, i, j, base)
    ;
    assert(entry_for(rels1[t], pairs, i, j, base));
}

/// What was emitted stays emitted when the entry list only grows.
#[verifier::spinoff_prover]
proof fn lemma_emitted_all_mono(
    rels0: Seq<RelEntry>,
    rels1: Seq<RelEntry>,
    pairs: Seq<TradingPair>,
    base: Seq<char>,
)
    requires
        rels0.len() <= rels1.len(),
        forall|t: int| 0 <= t < rels0.len() ==> rels1[t] == rels0[t],
    ensures
        forall|i2: int, j2: int|
            #[trigger] emitted(rels0, pairs, i2, j2, base) ==> emitted(rels1, pairs, i2, j2, base),
{
    assert forall|i2: int, j2: int| #[trigger]
        emitted(rels0, pairs, i2, j2, base) implies emitted(rels1, pairs, i2, j2, base) by {
        lemma_emitted_mono(rels0, rels1, pairs, i2, j2, base);
    }
}

/// Pushing a sound entry keeps every per-entry clause.
#[verifier::spinoff_prover]
proof fn lemma_entries_step(
    rels0: Seq<RelEntry>,
    sockets0: Seq<String>,
    rels1: Seq<RelEntry>,
    sockets1: Seq<String>,
    pairs: Seq<TradingPair>,
    base: Seq<char>,
    entry: RelEntry,
)
    requires
        forall|t: int|
            0 <= t < rels0.len() ==> cycle_entry_ok(#[trigger] rels0[t], pairs, base) && entry_wf(
                rels0[t],
                base,
            ) && entry_symbols_in(rels0[t], sockets0),
        rels1 == rels0.push(entry),
        cycle_entry_ok(entry, pairs, base),
        entry_wf(entry, base),
        entry_symbols_in(entry, sockets1),
        sockets0.len() <= sockets1.len(),
        forall|u: int| 0 <= u < sockets0.len() ==> sockets1[u] == sockets0[u],
    ensures
        forall|t: int|
            0 <= t < rels1.len() ==> cycle_entry_ok(#[trigger] rels1[t], pairs, base) && entry_wf(
                rels1[t],
                base,
            ) && entry_symbols_in(rels1[t], sockets1),
{
    reveal(entry_symbols_in);
    let n0 = rels0.len() as int;
    assert forall|t: int| 0 <= t < rels1.len() implies cycle_entry_ok(
        #[trigger] rels1[t],
        pairs,
        base,
    ) && entry_wf(rels1[t], base) && entry_symbols_in(rels1[t], sockets1) by {
        if t < n0 {
            assert(rels1[t] == rels0[t]);
            assert(cycle_entry_ok(rels0[t], pairs, base));
            assert(entry_symbols_in(rels0[t], sockets0));
            lemma_contain_mono(sockets0, sockets1, rels0[t].relationship.start.symbol@);
            lemma_contain_mono(sockets0, sockets1, rels0[t].relationship.middle.symbol@);
            lemma_contain_mono(sockets0, sockets1, rels0[t].relationship.end.symbol@);
        } else {
            assert(rels1[t] == entry);
        }
    }
}

/// Every subscription keeps a user once the entry that brought the new
/// symbols is on the list.
#[verifier::spinoff_prover]
proof fn lemma_sockets_step(
    rels0: Seq<RelEntry>,
    rels1: Seq<RelEntry>,
    sockets0: Seq<String>,
    sockets1: Seq<String>,
    entry: RelEntry,
)
    requires
        forall|u: int| 0 <= u < sockets0.len() ==> socket_covered(rels0, (#[trigger] sockets0[u])@),
        rels1 == rels0.push(entry),
        sockets0.len() <= sockets1.len(),
        forall|u: int| 0 <= u < sockets0.len() ==> sockets1[u] == sockets0[u],
        forall|u: int|
            sockets0.len() <= u < sockets1.len() ==> rel_uses_symbol(
                entry.relationship,
                (#[trigger] sockets1[u])@,
            ),
    ensures
        forall|u: int| 0 <= u < sockets1.len() ==> socket_covered(rels1, (#[trigger] sockets1[u])@),
{
    reveal(socket_covered);
    let n0 = rels0.len() as int;
    assert(rels1[n0] == entry);
    assert forall|u: int| 0 <= u < sockets1.len() implies socket_covered(
        rels1,
        (#[trigger] sockets1[u])@,
    ) by {
        if u < sockets0.len() {
            assert(socket_covered(rels0, sockets0[u]@));
            lemma_covered_mono(rels0, rels1, sockets0[u]@);
        } else {
            assert(rel_uses_symbol(rels1[n0].relationship, sockets1[u]@));
        }
    }
}

/// Put the three leg symbols on the subscription list, each once.
#[verifier::spinoff_prover]
fn register_symbols(sockets: &mut Vec<String>, si: String, sk: String, sj: String)
    requires
        symbols_distinct(old(sockets)@),
    ensures
        symbols_distinct(final(sockets)@),
        symbols_contain(final(sockets)@, si@),
        symbols_contain(final(sockets)@, sk@),
        symbols_contain(final(sockets)@, sj@),
        old(sockets)@.len() <= final(sockets)@.len(),
        forall|u: int| 0 <= u < old(sockets)@.len() ==> final(sockets)@[u] == old(sockets)@[u],
        forall|u: int|
            old(sockets)@.len() <= u < final(sockets)@.len() ==> (#[trigger] final(sockets)@[u])@
                == si@ || final(sockets)@[u]@ == sk@ || final(sockets)@[u]@ == sj@,
    {
    let ghost gsi = si@;
    let ghost gsk = sk@;
    let ghost gsj = sj@;
    push_unique(sockets, si);
    push_unique(sockets, sk);
    push_unique(sockets, sj);
    proof {
        assert(symbols_contain(sockets@, gsi));
        assert(symbols_contain(sockets@, gsk));
        assert(symbols_contain(sockets@, gsj));
    }
}

/// A matched middle makes the three pairs a well-formed triangle.
#[verifier::spinoff_prover]
proof fn lemma_triangle_from_match(
    pairs: Seq<TradingPair>,
    i: int,
    k: int,
    j: int,
    base: Seq<char>,
    start: TradingPair,
    middle: TradingPair,
    end: TradingPair,
)
    requires
        forall|m: int| 0 <= m < pairs.len() ==> (#[trigger] pairs[m]).wf(),
        0 <= i < j < pairs.len(),
        0 <= k < pairs.len(),
        pairs[i].asset_set().contains(base),
        pairs[j].asset_set().contains(base),
        match_middle(pairs[k], spec_other(&pairs[i], base), spec_other(&pairs[j], base)),
        start.same_pair(&pairs[i]),
        middle.same_pair(&pairs[k]),
        end.same_pair(&pairs[j]),
    ensures
        wf_triangle(base, &start, &middle, &end),
{
    reveal(wf_triangle);
    let pi = pairs[i];
    let pj = pairs[j];
    let pk = pairs[k];
    assert(spec_other(&start, base) == spec_other(&pi, base));
    assert(spec_other(&end, base) == spec_other(&pj, base));
    // The two intermediates differ from the base and from each other, and the
    // middle joins exactly them.
    assert(spec_other(&pi, base) != base);
    assert(spec_other(&pj, base) != base);
    assert(spec_other(&pi, base) != spec_other(&pj, base));
    assert(middle.asset_set() =~= set![spec_other(&start, base), spec_other(&end, base)]);
}

/// The entry assembled from the pairs at `i`, `k`, and `j` is the cycle the
/// builder owes that pair of starters.
#[verifier::spinoff_prover]
proof fn lemma_entry_for(
    e: RelEntry,
    pairs: Seq<TradingPair>,
    i: int,
    k: int,
    j: int,
    base: Seq<char>,
)
    requires
        0 <= i < j < pairs.len(),
        0 <= k < pairs.len(),
        pairs[i].asset_set().contains(base),
        pairs[j].asset_set().contains(base),
        first_middle(pairs, spec_other(&pairs[i], base), spec_other(&pairs[j], base), 0) == k,
        e.relationship.start.same_pair(&pairs[i]),
        e.relationship.middle.same_pair(&pairs[k]),
        e.relationship.end.same_pair(&pairs[j]),
        e.relationship.base@ == base,
        e.relationship.wf(),
        e.key@ == pairs[i].symbol@ + " -> "@ + pairs[k].symbol@ + " -> "@ + pairs[j].symbol@,
    ensures
        entry_for(e, pairs, i, j, base),
        need_cycle(pairs, i, j, base),
{
    reveal(entry_for);
    reveal(need_cycle);
}

/// Assemble the named cycle entry for the pairs at `i`, `k`, and `j`.
#[verifier::spinoff_prover]
#[verifier::rlimit(100)]
fn make_entry(pairs: &Vec<TradingPair>, base: &str, i: usize, k: usize, j: usize) -> (e: RelEntry)
    requires
        forall|m: int| 0 <= m < pairs@.len() ==> (#[trigger] pairs@[m]).wf(),
        i < j < pairs@.len(),
        k < pairs@.len(),
        pairs@[i as int].asset_set().contains(base@),
        pairs@[j as int].asset_set().contains(base@),
        match_middle(
            pairs@[k as int],
            spec_other(&pairs@[i as int], base@),
            spec_other(&pairs@[j as int], base@),
        ),
    ensures
        e.relationship.start.same_pair(&pairs@[i as int]),
        e.relationship.middle.same_pair(&pairs@[k as int]),
        e.relationship.end.same_pair(&pairs@[j as int]),
        e.relationship.base@ == base@,
        e.relationship.wf(),
        e.key@ == pairs@[i as int].symbol@ + " -> "@ + pairs@[k as int].symbol@ + " -> "@
            + pairs@[j as int].symbol@,
        wf_triangle(
            base@,
            &e.relationship.start,
            &e.relationship.middle,
            &e.relationship.end,
        ),
        entry_wf(e, base@),
        entry_symbols_in_triple(
            e,
            pairs@[i as int].symbol@,
            pairs@[k as int].symbol@,
            pairs@[j as int].symbol@,
        ),
{
    let mut key = pairs[i].get_symbol();
    key.append(" -> ");
    key.append(pairs[k].get_symbol().as_str());
    key.append(" -> ");
    key.append(pairs[j].get_symbol().as_str());
    let relationship = TriangularRelationship::new(
        base.to_owned(),
        pairs[i].duplicate(),
        pairs[k].duplicate(),
        pairs[j].duplicate(),
    );
    proof {
        reveal(entry_wf);
        reveal(entry_symbols_in_triple);
        lemma_triangle_from_match(
            pairs@,
            i as int,
            k as int,
            j as int,
            base@,
            relationship.start,
            relationship.middle,
            relationship.end,
        );
    }
    RelEntry { key, relationship }
}

/// Whether an entry's three leg symbols are exactly the given three.
#[verifier::opaque]
pub open spec fn entry_symbols_in_triple(
    e: RelEntry,
    si: Seq<char>,
    sk: Seq<char>,
    sj: Seq<char>,
) -> bool {
    &&& e.relationship.start.symbol@ == si
    &&& e.relationship.middle.symbol@ == sk
    &&& e.relationship.end.symbol@ == sj
}

/// Emit the cycle for starters `i < j` with middle `k`, registering its
/// symbols in the subscription list.
#[verifier::spinoff_prover]
#[verifier::rlimit(100)]
fn emit_cycle(
    rels: &mut Vec<RelEntry>,
    sockets: &mut Vec<String>,
    pairs: &Vec<TradingPair>,
    base: &str,
    i: usize,
    k: usize,
    j: usize,
)
    requires
        forall|m: int| 0 <= m < pairs@.len() ==> (#[trigger] pairs@[m]).wf(),
        i < j < pairs@.len(),
        k < pairs@.len(),
        pairs@[i as int].asset_set().contains(base@),
        pairs@[j as int].asset_set().contains(base@),
        match_middle(
            pairs@[k as int],
            spec_other(&pairs@[i as int], base@),
            spec_other(&pairs@[j as int], base@),
        ),
        first_middle(
            pairs@,
            spec_other(&pairs@[i as int], base@),
            spec_other(&pairs@[j as int], base@),
            0,
        ) == k,
        builder_sound(old(rels)@, old(sockets)@, pairs@, base@),
    ensures
        builder_sound(final(rels)@, final(sockets)@, pairs@, base@),
        emitted(final(rels)@, pairs@, i as int, j as int, base@),
        forall|i2: int, j2: int|
            #[trigger] emitted(old(rels)@, pairs@, i2, j2, base@) ==> emitted(
                final(rels)@,
                pairs@,
                i2,
                j2,
                base@,
            ),
{
    let ghost rels0 = rels@;
    let ghost sockets0 = sockets@;
    let ghost gi = i as int;
    let ghost gj = j as int;
    let ghost gk = k as int;
    let ghost b = base@;
    register_symbols(sockets, pairs[i].get_symbol(), pairs[k].get_symbol(), pairs[j].get_symbol());
    let entry = make_entry(pairs, base, i, k, j);
    rels.push(entry);
    proof {
        lemma_entry_for(entry, pairs@, gi, gk, gj, b);
        assert(entry_symbols_in(entry, sockets@)) by {
            reveal(entry_symbols_in);
            reveal(entry_symbols_in_triple);
        }
        assert(cycle_entry_ok(entry, pairs@, b)) by {
            reveal(cycle_entry_ok);
        }
        assert(rels@[rels@.len() - 1] == entry);
        assert(emitted(rels@, pairs@, gi, gj, b));
        assert forall|u: int|
            sockets0.len() <= u < sockets@.len() implies rel_uses_symbol(
            entry.relationship,
            (#[trigger] sockets@[u])@,
        ) by {
            reveal(entry_symbols_in_triple);
        }
        lemma_emitted_all_mono(rels0, rels@, pairs@, b);
        lemma_entries_step(rels0, sockets0, rels@, sockets@, pairs@, b, entry);
        lemma_sockets_step(rels0, rels@, sockets0, sockets@, entry);
    }
}

/// Enumerate every triangular cycle through `base`: for each unordered pair
/// of live starters, the first listed pair joining their two other assets
/// completes the cycle. Returns the named cycles and the deduplicated list
/// of symbols they use, the subscriptions the depth cache needs.
#[verifier::spinoff_prover]
#[verifier::rlimit(100)]
pub fn build_relationships(pairs: &Vec<TradingPair>, base: &str) -> (r: (
    Vec<RelEntry>,
    Vec<String>,
))
    requires
        forall|k: int| 0 <= k < pairs@.len() ==> (#[trigger] pairs@[k]).wf(),
    ensures
        builder_sound(r.0@, r.1@, pairs@, base@),
        forall|i: int, j: int|
            #[trigger] need_cycle(pairs@, i, j, base@) ==> emitted(r.0@, pairs@, i, j, base@),
{
    let mut rels: Vec<RelEntry> = Vec::new();
    let mut sockets: Vec<String> = Vec::new();
    let n = pairs.len();
    let mut i: usize = 0;
    proof {
        assert forall|i2: int, j2: int| i2 < 0 implies !need_cycle(pairs@, i2, j2, base@) by {
            reveal(need_cycle);
        }
    }
    while i < n
        invariant
            n == pairs@.len(),
            i <= n,
            forall|m: int| 0 <= m < pairs@.len() ==> (#[trigger] pairs@[m]).wf(),
            builder_sound(rels@, sockets@, pairs@, base@),
            forall|i2: int, j2: int|
                #[trigger] need_cycle(pairs@, i2, j2, base@) && i2 < i as int ==> emitted(
                    rels@,
                    pairs@,
                    i2,
                    j2,
                    base@,
                ),
        decreases n - i,
    {
        if pairs[i].has_asset(base.to_owned()) {
            let x = pairs[i].get_the_other(base.to_owned());
            proof {
                assert(x@ == spec_other(&pairs@[i as int], base@));
            }
            let mut j = i + 1;
            proof {
                assert forall|j2: int| j2 <= i as int implies !need_cycle(
                    pairs@,
                    i as int,
                    j2,
                    base@,
                ) by {
                    reveal(need_cycle);
                }
            }
            while j < n
                invariant
                    n == pairs@.len(),
                    i < j,
                    j <= n,
                    i < n,
                    forall|m: int| 0 <= m < pairs@.len() ==> (#[trigger] pairs@[m]).wf(),
                    pairs@[i as int].asset_set().contains(base@),
                    x@ == spec_other(&pairs@[i as int], base@),
                    builder_sound(rels@, sockets@, pairs@, base@),
                    forall|i2: int, j2: int|
                        #[trigger] need_cycle(pairs@, i2, j2, base@) && i2 < i as int ==> emitted(
                            rels@,
                            pairs@,
                            i2,
                            j2,
                            base@,
                        ),
                    forall|j2: int|
                        #[trigger] need_cycle(pairs@, i as int, j2, base@) && j2 < j as int
                            ==> emitted(rels@, pairs@, i as int, j2, base@),
                decreases n - j,
            {
                if pairs[j].has_asset(base.to_owned()) {
                    let y = pairs[j].get_the_other(base.to_owned());
                    proof {
                        assert(y@ == spec_other(&pairs@[j as int], base@));
                    }
                    match find_middle(pairs, x.as_str(), y.as_str()) {
                        Some(k) => {
                            emit_cycle(&mut rels, &mut sockets, pairs, base, i, k, j);
                        },
                        None => {
                            proof {
                                assert(!need_cycle(pairs@, i as int, j as int, base@)) by {
                                    reveal(need_cycle);
                                }
                            }
                        },
                    }
                } else {
                    proof {
                        assert(!need_cycle(pairs@, i as int, j as int, base@)) by {
                            reveal(need_cycle);
                        }
                    }
                }
                j = j + 1;
            }
            proof {
                assert forall|j2: int| j2 >= n as int implies !need_cycle(
                    pairs@,
                    i as int,
                    j2,
                    base@,
                ) by {
                    reveal(need_cycle);
                }
            }
        } else {
            proof {
                assert forall|j2: int| !need_cycle(pairs@, i as int, j2, base@) by {
                    reveal(need_cycle);
                }
            }
        }
        i = i + 1;
    }
    proof {
        assert forall|i2: int, j2: int| i2 >= n as int implies !need_cycle(
            pairs@,
            i2,
            j2,
            base@,
        ) by {
            reveal(need_cycle);
        }
    }
    (rels, sockets)
}


} // verus!
