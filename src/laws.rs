use vstd::prelude::*;
use crate::address::{Ipv4, loopback};
use crate::codec::{
    encoded_name, lemma_decode_encode, lemma_encoded_layout, lemma_next_dot_bounds,
    lemma_next_dot_skips, next_dot,
};
use crate::resolver::{
    answers_of, has_address_widths, in_zone, is_pair_name, normalized, resolution, starts_with_ns, ConfigView, QueryType,
    RecordView, ResolutionView, REBIND_TTL, ZONE_TTL,
};
use crate::text::{ascii_lower, ascii_lower_char, ends_with};

verus! {

/// The fully qualified form of the name that carries `primary` and
/// `secondary` under `root`.
pub open spec fn encoded_query_name(primary: Ipv4, secondary: Ipv4, root: Seq<char>) -> Seq<char> {
    encoded_name(primary, secondary, root).push('.')
}

/// An `A` query for an encoded name of the zone reaches the address policy:
/// refused when both addresses are the same and not loopback, otherwise
/// answered with the address that the random bit picks, for one second.
proof fn lemma_encoded_resolution(primary: Ipv4, secondary: Ipv4, cfg: ConfigView, coin: bool)
    requires
        cfg.root == ascii_lower(cfg.root),
    ensures
        ({
            let name = encoded_query_name(primary, secondary, cfg.root);
            resolution(name, QueryType::A, cfg, coin) == if primary == secondary && primary
                != loopback() {
                ResolutionView::Refused
            } else {
                ResolutionView::Answered(
                    seq![
                        RecordView::A {
                            name,
                            address: if coin { secondary } else { primary },
                            ttl: REBIND_TTL,
                        },
                    ],
                )
            }
        }),
{
    let e = encoded_name(primary, secondary, cfg.root);
    let name = e.push('.');
    lemma_encoded_layout(primary, secondary, cfg.root);
    lemma_decode_encode(primary, secondary, cfg.root);
    assert(name.drop_last() =~= e);
    assert forall|i: int| 0 <= i < e.len() implies #[trigger] ascii_lower_char(e[i]) == e[i] by {
        if i >= 18 {
            assert(e[i] == e.subrange(18, e.len() as int)[i - 18]);
            assert(cfg.root[i - 18] == ascii_lower(cfg.root)[i - 18]);
        }
    }
    assert(ascii_lower(e) =~= e);
    assert(normalized(name) == Some(e));
    assert(ends_with(e, cfg.root));
    assert(in_zone(e, cfg.root));
    assert(!starts_with_ns(e));
    assert(e != cfg.root) by {
        assert(e.len() != cfg.root.len());
    }
    assert(is_pair_name(e, cfg.root));
    assert(has_address_widths(e));
}

/// For two different addresses, an `A` query for their encoded name gets
/// the first when the random bit is clear and the second when it is set,
/// each for one second: over fair bits both come back, and never a third.
pub proof fn lemma_rebind_alternates(primary: Ipv4, secondary: Ipv4, cfg: ConfigView)
    requires
        primary != secondary,
        primary != loopback(),
        cfg.root == ascii_lower(cfg.root),
    ensures
        forall|coin: bool|
            #![trigger resolution(encoded_query_name(primary, secondary, cfg.root), QueryType::A, cfg, coin)]
            answers_of(
                resolution(encoded_query_name(primary, secondary, cfg.root), QueryType::A, cfg, coin),
            ) == seq![
                RecordView::A {
                    name: encoded_query_name(primary, secondary, cfg.root),
                    address: if coin { secondary } else { primary },
                    ttl: REBIND_TTL,
                },
            ],
{
    assert forall|coin: bool|
        #![trigger resolution(encoded_query_name(primary, secondary, cfg.root), QueryType::A, cfg, coin)]
        answers_of(
            resolution(encoded_query_name(primary, secondary, cfg.root), QueryType::A, cfg, coin),
        ) == seq![
            RecordView::A {
                name: encoded_query_name(primary, secondary, cfg.root),
                address: if coin { secondary } else { primary },
                ttl: REBIND_TTL,
            },
        ] by {
        lemma_encoded_resolution(primary, secondary, cfg, coin);
    }
}

/// Loopback encoded twice is never taken for abuse: whatever the random
/// bit, the answer is loopback.
pub proof fn lemma_loopback_pair_answers(cfg: ConfigView, coin: bool)
    requires
        cfg.root == ascii_lower(cfg.root),
    ensures
        answers_of(
            resolution(encoded_query_name(loopback(), loopback(), cfg.root), QueryType::A, cfg, coin),
        ) == seq![
            RecordView::A {
                name: encoded_query_name(loopback(), loopback(), cfg.root),
                address: loopback(),
                ttl: REBIND_TTL,
            },
        ],
{
    lemma_encoded_resolution(loopback(), loopback(), cfg, coin);
}

/// The same address encoded twice, other than loopback, gets no answer.
pub proof fn lemma_identical_pair_refused(address: Ipv4, cfg: ConfigView, coin: bool)
    requires
        address != loopback(),
        cfg.root == ascii_lower(cfg.root),
    ensures
        answers_of(resolution(encoded_query_name(address, address, cfg.root), QueryType::A, cfg, coin))
            == Seq::<RecordView>::empty(),
{
    lemma_encoded_resolution(address, address, cfg, coin);
}

/// A name that, once normalized, does not end with the root domain gets no
/// answer, whatever the query type.
pub proof fn lemma_foreign_name_unanswered(name: Seq<char>, qtype: QueryType, cfg: ConfigView, coin: bool)
    requires
        normalized(name) is Some ==> !ends_with(normalized(name).unwrap(), cfg.root),
    ensures
        answers_of(resolution(name, qtype, cfg, coin)) == Seq::<RecordView>::empty(),
{
    if normalized(name) is Some {
        let n = normalized(name).unwrap();
        if n == cfg.root {
            assert(n.subrange(0, n.len() as int) =~= n);
        }
        assert(!in_zone(n, cfg.root));
    }
}

/// With a public address configured, an `A` query for `ns1.<root>.` gets
/// exactly that address.
pub proof fn lemma_ns_name_answers(cfg: ConfigView, coin: bool)
    requires
        cfg.public is Some,
        cfg.root == ascii_lower(cfg.root),
    ensures
        answers_of(resolution(seq!['n', 's', '1', '.'] + cfg.root + seq!['.'], QueryType::A, cfg, coin))
            == seq![
            RecordView::A {
                name: seq!['n', 's', '1', '.'] + cfg.root + seq!['.'],
                address: cfg.public.unwrap(),
                ttl: ZONE_TTL,
            },
        ],
{
    let name = seq!['n', 's', '1', '.'] + cfg.root + seq!['.'];
    let e = seq!['n', 's', '1', '.'] + cfg.root;
    assert(name.drop_last() =~= e);
    assert forall|i: int| 0 <= i < e.len() implies #[trigger] ascii_lower_char(e[i]) == e[i] by {
        if i >= 4 {
            assert(e[i] == cfg.root[i - 4]);
            assert(cfg.root[i - 4] == ascii_lower(cfg.root)[i - 4]);
        }
    }
    assert(ascii_lower(e) =~= e);
    assert(e.subrange(4, e.len() as int) =~= cfg.root);
    assert(in_zone(e, cfg.root));
}

/// The root itself, or one label before it, is no encoded name: an `A`
/// query for it gets no answer, unless the name's first label starts with
/// `ns` and a public address is configured.
pub proof fn lemma_short_name_unanswered(label: Option<Seq<char>>, cfg: ConfigView, coin: bool)
    requires
        cfg.root == ascii_lower(cfg.root),
        label is Some ==> forall|i: int| 0 <= i < label.unwrap().len() ==> label.unwrap()[i] != '.',
        label is Some ==> !(starts_with_ns(ascii_lower(label.unwrap())) && cfg.public is Some),
        label is None ==> !(starts_with_ns(cfg.root) && cfg.public is Some),
    ensures
        ({
            let name = match label {
                Some(l) => l + seq!['.'] + cfg.root + seq!['.'],
                None => cfg.root + seq!['.'],
            };
            answers_of(resolution(name, QueryType::A, cfg, coin)) == Seq::<RecordView>::empty()
        }),
{
    match label {
        None => {
            let name = cfg.root + seq!['.'];
            assert(name.drop_last() =~= cfg.root);
        },
        Some(l) => {
            let name = l + seq!['.'] + cfg.root + seq!['.'];
            let body = l + seq!['.'] + cfg.root;
            let ll = ascii_lower(l);
            let n = ll + seq!['.'] + cfg.root;
            assert(name.drop_last() =~= body);
            assert(ascii_lower(body) =~= n) by {
                assert forall|i: int| 0 <= i < body.len() implies ascii_lower(body)[i] == n[i] by {
                    if i > l.len() {
                        assert(cfg.root[i - l.len() - 1] == ascii_lower(cfg.root)[i - l.len() - 1]);
                    }
                }
            }
            assert forall|i: int| 0 <= i < ll.len() implies #[trigger] n[i] != '.' by {
                assert(l[i] != '.');
                assert(n[i] == ascii_lower_char(l[i]));
            }
            lemma_next_dot_skips(n, 0, ll.len() as int);
            assert(n[ll.len() as int] == '.');
            assert(next_dot(n, 0) == ll.len());
            lemma_next_dot_bounds(n, ll.len() + 1int);
            let d1 = next_dot(n, ll.len() + 1int);
            if d1 < n.len() {
                assert(n.subrange(d1 + 1, n.len() as int).len() < cfg.root.len());
            }
            assert(!is_pair_name(n, cfg.root));
            if starts_with_ns(n) {
                if ll.len() >= 2 {
                    assert(ll[0] == n[0] && ll[1] == n[1]);
                    assert(starts_with_ns(ll));
                } else if ll.len() == 1 {
                    assert(n[1] == '.');
                } else {
                    assert(n[0] == '.');
                }
            }
        },
    }
}

} // verus!
