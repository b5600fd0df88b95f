//! Octet selectors: single values and inclusive ranges, and the addresses that
//! four of them select.

use crate::address::{v4, IpAddr, Ipv4Addr};
use crate::error::{ErrorModel, FactoryError};
use crate::text::{
    contains_char, join, law_join_then_split, law_last_piece, law_only_piece,
    law_separators_make_pieces, octet, parse_octet, split, split_str,
};
use vstd::prelude::*;

verus! {

/// The values from `start` to `end`, both included, in ascending order.
pub open spec fn inclusive(start: u8, end: u8) -> Seq<u8> {
    if start <= end {
        Seq::new((end - start + 1) as nat, |i: int| (start + i) as u8)
    } else {
        Seq::empty()
    }
}

/// The values that an octet selector names: `"192"` names one value and
/// `"1-254"` an inclusive range.
pub open spec fn selected(text: Seq<char>) -> Result<Seq<u8>, ErrorModel> {
    if text.contains('-') {
        let bounds = split(text, '-');
        if bounds.len() != 2 {
            Err(ErrorModel::RangeFormat { text })
        } else {
            match (octet(bounds[0]), octet(bounds[1])) {
                (Err(cause), _) => Err(ErrorModel::Octet { cause }),
                (_, Err(cause)) => Err(ErrorModel::Octet { cause }),
                (Ok(start), Ok(end)) => if start > end {
                    Err(ErrorModel::RangeOrder { text })
                } else {
                    Ok(inclusive(start, end))
                },
            }
        }
    } else {
        match octet(text) {
            Err(cause) => Err(ErrorModel::Octet { cause }),
            Ok(value) => Ok(seq![value]),
        }
    }
}

/// Reads an octet selector.
pub fn parse_octet_range(range_str: &str) -> (values: Result<Vec<u8>, FactoryError>)
    ensures
        match values {
            Ok(values) => selected(range_str@) == Ok::<Seq<u8>, ErrorModel>(values@),
            Err(error) => selected(range_str@) == Err::<Seq<u8>, ErrorModel>(error@),
        },
{
    if contains_char(range_str, '-') {
        let bounds = split_str(range_str, '-');
        if bounds.len() != 2 {
            return Err(FactoryError::RangeFormat { text: range_str.to_owned() });
        }
        let start: u8 = match parse_octet(bounds[0]) {
            Ok(start) => start,
            Err(cause) => return Err(FactoryError::Octet { cause }),
        };
        let end: u8 = match parse_octet(bounds[1]) {
            Ok(end) => end,
            Err(cause) => return Err(FactoryError::Octet { cause }),
        };
        if start > end {
            return Err(FactoryError::RangeOrder { text: range_str.to_owned() });
        }
        Ok(values_between(start, end))
    } else {
        match parse_octet(range_str) {
            Ok(value) => {
                let mut values: Vec<u8> = Vec::new();
                values.push(value);
                assert(values@ =~= seq![value]);
                Ok(values)
            },
            Err(cause) => Err(FactoryError::Octet { cause }),
        }
    }
}

/// The values from `start` to `end`, both included.
fn values_between(start: u8, end: u8) -> (values: Vec<u8>)
    requires
        start <= end,
    ensures
        values@ == inclusive(start, end),
{
    let mut values: Vec<u8> = Vec::new();
    let mut next: u8 = start;
    while next < end
        invariant
            start <= next <= end,
            values@ == inclusive(start, end).take(next - start),
        decreases end - next,
    {
        values.push(next);
        assert(inclusive(start, end).take(next + 1 - start) =~= inclusive(start, end).take(
            next - start,
        ).push(next));
        next = next + 1;
    }
    values.push(next);
    assert(values@ =~= inclusive(start, end));
    values
}

/// The addresses `a.b.c.x` for each `x` in `fourth`, in order.
pub open spec fn last_octets(a: u8, b: u8, c: u8, fourth: Seq<u8>) -> Seq<IpAddr> {
    fourth.map_values(|d: u8| v4(a, b, c, d))
}

/// The addresses `a.b.x.y` for each `x` in `third` and `y` in `fourth`, the last
/// octet running fastest.
pub open spec fn last_two_octets(a: u8, b: u8, third: Seq<u8>, fourth: Seq<u8>) -> Seq<IpAddr>
    decreases third.len(),
{
    if third.len() == 0 {
        Seq::empty()
    } else {
        last_two_octets(a, b, third.drop_last(), fourth) + last_octets(a, b, third.last(), fourth)
    }
}

/// The addresses `a.x.y.z` for each `x` in `second`, `y` in `third` and `z` in
/// `fourth`, later octets running faster.
pub open spec fn last_three_octets(
    a: u8,
    second: Seq<u8>,
    third: Seq<u8>,
    fourth: Seq<u8>,
) -> Seq<IpAddr>
    decreases second.len(),
{
    if second.len() == 0 {
        Seq::empty()
    } else {
        last_three_octets(a, second.drop_last(), third, fourth) + last_two_octets(
            a,
            second.last(),
            third,
            fourth,
        )
    }
}

/// The addresses with each octet from its own list, later octets running faster.
pub open spec fn all_octets(
    first: Seq<u8>,
    second: Seq<u8>,
    third: Seq<u8>,
    fourth: Seq<u8>,
) -> Seq<IpAddr>
    decreases first.len(),
{
    if first.len() == 0 {
        Seq::empty()
    } else {
        all_octets(first.drop_last(), second, third, fourth) + last_three_octets(
            first.last(),
            second,
            third,
            fourth,
        )
    }
}

/// The addresses with each octet from its own list.
pub fn generate_ips_from_ranges(
    octet1_range: &[u8],
    octet2_range: &[u8],
    octet3_range: &[u8],
    octet4_range: &[u8],
) -> (ips: Vec<IpAddr>)
    ensures
        ips@ == all_octets(octet1_range@, octet2_range@, octet3_range@, octet4_range@),
{
    let mut ips: Vec<IpAddr> = Vec::new();
    let mut i: usize = 0;
    while i < octet1_range.len()
        invariant
            i <= octet1_range.len(),
            ips@ == all_octets(
                octet1_range@.take(i as int),
                octet2_range@,
                octet3_range@,
                octet4_range@,
            ),
        decreases octet1_range.len() - i,
    {
        let o1: u8 = octet1_range[i];
        push_second(&mut ips, o1, octet2_range, octet3_range, octet4_range);
        assert(octet1_range@.take(i + 1).drop_last() =~= octet1_range@.take(i as int));
        i = i + 1;
    }
    assert(octet1_range@.take(i as int) =~= octet1_range@);
    ips
}

/// Appends the addresses that begin with `o1`.
fn push_second(
    ips: &mut Vec<IpAddr>,
    o1: u8,
    octet2_range: &[u8],
    octet3_range: &[u8],
    octet4_range: &[u8],
)
    ensures
        final(ips)@ == old(ips)@ + last_three_octets(
            o1,
            octet2_range@,
            octet3_range@,
            octet4_range@,
        ),
{
    let ghost before = ips@;
    let mut i: usize = 0;
    assert(before =~= before + Seq::<IpAddr>::empty());
    while i < octet2_range.len()
        invariant
            i <= octet2_range.len(),
            ips@ == before + last_three_octets(
                o1,
                octet2_range@.take(i as int),
                octet3_range@,
                octet4_range@,
            ),
        decreases octet2_range.len() - i,
    {
        let o2: u8 = octet2_range[i];
        push_third(ips, o1, o2, octet3_range, octet4_range);
        assert(octet2_range@.take(i + 1).drop_last() =~= octet2_range@.take(i as int));
        assert(ips@ =~= before + last_three_octets(
            o1,
            octet2_range@.take(i + 1),
            octet3_range@,
            octet4_range@,
        ));
        i = i + 1;
    }
    assert(octet2_range@.take(i as int) =~= octet2_range@);
}

/// Appends the addresses that begin with `o1.o2`.
fn push_third(ips: &mut Vec<IpAddr>, o1: u8, o2: u8, octet3_range: &[u8], octet4_range: &[u8])
    ensures
        final(ips)@ == old(ips)@ + last_two_octets(o1, o2, octet3_range@, octet4_range@),
{
    let ghost before = ips@;
    let mut i: usize = 0;
    assert(before =~= before + Seq::<IpAddr>::empty());
    while i < octet3_range.len()
        invariant
            i <= octet3_range.len(),
            ips@ == before + last_two_octets(
                o1,
                o2,
                octet3_range@.take(i as int),
                octet4_range@,
            ),
        decreases octet3_range.len() - i,
    {
        let o3: u8 = octet3_range[i];
        push_fourth(ips, o1, o2, o3, octet4_range);
        assert(octet3_range@.take(i + 1).drop_last() =~= octet3_range@.take(i as int));
        assert(ips@ =~= before + last_two_octets(
            o1,
            o2,
            octet3_range@.take(i + 1),
            octet4_range@,
        ));
        i = i + 1;
    }
    assert(octet3_range@.take(i as int) =~= octet3_range@);
}

/// Appends the addresses that begin with `o1.o2.o3`.
fn push_fourth(ips: &mut Vec<IpAddr>, o1: u8, o2: u8, o3: u8, octet4_range: &[u8])
    ensures
        final(ips)@ == old(ips)@ + last_octets(o1, o2, o3, octet4_range@),
{
    let ghost before = ips@;
    let mut i: usize = 0;
    assert(before =~= before + last_octets(o1, o2, o3, octet4_range@.take(0)));
    while i < octet4_range.len()
        invariant
            i <= octet4_range.len(),
            ips@ == before + last_octets(o1, o2, o3, octet4_range@.take(i as int)),
        decreases octet4_range.len() - i,
    {
        let o4: u8 = octet4_range[i];
        ips.push(IpAddr::V4(Ipv4Addr::new(o1, o2, o3, o4)));
        assert(ips@ =~= before + last_octets(o1, o2, o3, octet4_range@.take(i + 1)));
        i = i + 1;
    }
    assert(octet4_range@.take(i as int) =~= octet4_range@);
}

/// The addresses that four octet selectors select.
pub open spec fn octets_select(
    octet1: Seq<char>,
    octet2: Seq<char>,
    octet3: Seq<char>,
    octet4: Seq<char>,
) -> Result<Seq<IpAddr>, ErrorModel> {
    match (selected(octet1), selected(octet2), selected(octet3), selected(octet4)) {
        (Err(error), _, _, _) => Err(error),
        (_, Err(error), _, _) => Err(error),
        (_, _, Err(error), _) => Err(error),
        (_, _, _, Err(error)) => Err(error),
        (Ok(first), Ok(second), Ok(third), Ok(fourth)) => Ok(
            all_octets(first, second, third, fourth),
        ),
    }
}

/// The addresses that a range string selects: four octet selectors with dots
/// between them.
pub open spec fn range_selects(range_str: Seq<char>) -> Result<Seq<IpAddr>, ErrorModel> {
    let parts = split(range_str, '.');
    if parts.len() != 4 {
        Err(ErrorModel::RangeParts)
    } else {
        octets_select(parts[0], parts[1], parts[2], parts[3])
    }
}

/// The addresses that four octet selectors select; of several bad selectors, the
/// first is reported.
pub fn hosts_from_octets(octet1: &str, octet2: &str, octet3: &str, octet4: &str) -> (hosts: Result<
    Vec<IpAddr>,
    FactoryError,
>)
    ensures
        match hosts {
            Ok(hosts) => octets_select(octet1@, octet2@, octet3@, octet4@) == Ok::<
                Seq<IpAddr>,
                ErrorModel,
            >(hosts@),
            Err(error) => octets_select(octet1@, octet2@, octet3@, octet4@) == Err::<
                Seq<IpAddr>,
                ErrorModel,
            >(error@),
        },
{
    let octet1_range = match parse_octet_range(octet1) {
        Ok(values) => values,
        Err(error) => return Err(error),
    };
    let octet2_range = match parse_octet_range(octet2) {
        Ok(values) => values,
        Err(error) => return Err(error),
    };
    let octet3_range = match parse_octet_range(octet3) {
        Ok(values) => values,
        Err(error) => return Err(error),
    };
    let octet4_range = match parse_octet_range(octet4) {
        Ok(values) => values,
        Err(error) => return Err(error),
    };
    Ok(
        generate_ips_from_ranges(
            octet1_range.as_slice(),
            octet2_range.as_slice(),
            octet3_range.as_slice(),
            octet4_range.as_slice(),
        ),
    )
}

/// The addresses that a range string selects.
pub fn hosts_from_range(range_str: &str) -> (hosts: Result<Vec<IpAddr>, FactoryError>)
    ensures
        match hosts {
            Ok(hosts) => range_selects(range_str@) == Ok::<Seq<IpAddr>, ErrorModel>(hosts@),
            Err(error) => range_selects(range_str@) == Err::<Seq<IpAddr>, ErrorModel>(error@),
        },
{
    let parts = split_str(range_str, '.');
    if parts.len() != 4 {
        return Err(FactoryError::RangeParts);
    }
    hosts_from_octets(parts[0], parts[1], parts[2], parts[3])
}

/// An octet selector that is accepted names at least one value and none twice.
pub proof fn law_selector_names_each_value_once(text: Seq<char>)
    requires
        selected(text) is Ok,
    ensures
        selected(text)->Ok_0.len() > 0,
        selected(text)->Ok_0.no_duplicates(),
{
}

proof fn lemma_last_octets_hold(a: u8, b: u8, c: u8, fourth: Seq<u8>, ip: IpAddr)
    ensures
        last_octets(a, b, c, fourth).contains(ip) <==> exists|z: u8|
            #[trigger] fourth.contains(z) && ip == v4(a, b, c, z),
{
    let ips = last_octets(a, b, c, fourth);
    if ips.contains(ip) {
        let k = choose|k: int| 0 <= k < ips.len() && ips[k] == ip;
        assert(fourth.contains(fourth[k]));
    }
    if exists|z: u8| #[trigger] fourth.contains(z) && ip == v4(a, b, c, z) {
        let z = choose|z: u8| #[trigger] fourth.contains(z) && ip == v4(a, b, c, z);
        let k = choose|k: int| 0 <= k < fourth.len() && fourth[k] == z;
        assert(ips[k] == ip);
    }
}

proof fn lemma_concatenation_holds<A>(left: Seq<A>, right: Seq<A>, item: A)
    ensures
        (left + right).contains(item) <==> left.contains(item) || right.contains(item),
{
    let both = left + right;
    if both.contains(item) {
        let k = choose|k: int| 0 <= k < both.len() && both[k] == item;
        if k < left.len() {
            assert(left[k] == item);
        } else {
            assert(right[k - left.len()] == item);
        }
    }
    if left.contains(item) {
        let k = choose|k: int| 0 <= k < left.len() && left[k] == item;
        assert(both[k] == item);
    }
    if right.contains(item) {
        let k = choose|k: int| 0 <= k < right.len() && right[k] == item;
        assert(both[k + left.len()] == item);
    }
}

proof fn lemma_drop_last_holds<A>(items: Seq<A>, item: A)
    requires
        items.len() > 0,
    ensures
        items.contains(item) <==> items.drop_last().contains(item) || item == items.last(),
{
    lemma_concatenation_holds(items.drop_last(), seq![items.last()], item);
    assert(items.drop_last() + seq![items.last()] =~= items);
    assert(seq![items.last()].contains(item) <==> item == items.last()) by {
        assert(seq![items.last()][0] == items.last());
    }
}

proof fn lemma_last_two_octets_hold(a: u8, b: u8, third: Seq<u8>, fourth: Seq<u8>, ip: IpAddr)
    ensures
        last_two_octets(a, b, third, fourth).contains(ip) <==> exists|y: u8, z: u8|
            #[trigger] third.contains(y) && #[trigger] fourth.contains(z) && ip == v4(a, b, y, z),
    decreases third.len(),
{
    if third.len() > 0 {
        let front = third.drop_last();
        lemma_last_two_octets_hold(a, b, front, fourth, ip);
        lemma_last_octets_hold(a, b, third.last(), fourth, ip);
        lemma_concatenation_holds(
            last_two_octets(a, b, front, fourth),
            last_octets(a, b, third.last(), fourth),
            ip,
        );
        assert(third.contains(third.last()));
        if last_two_octets(a, b, front, fourth).contains(ip) {
            let (y, z) = choose|y: u8, z: u8| #[trigger]
                front.contains(y) && #[trigger] fourth.contains(z) && ip == v4(a, b, y, z);
            lemma_drop_last_holds(third, y);
        }
        if exists|y: u8, z: u8| #[trigger]
            third.contains(y) && #[trigger] fourth.contains(z) && ip == v4(a, b, y, z) {
            let (y, z) = choose|y: u8, z: u8| #[trigger]
                third.contains(y) && #[trigger] fourth.contains(z) && ip == v4(a, b, y, z);
            lemma_drop_last_holds(third, y);
        }
    }
}

proof fn lemma_last_three_octets_hold(
    a: u8,
    second: Seq<u8>,
    third: Seq<u8>,
    fourth: Seq<u8>,
    ip: IpAddr,
)
    ensures
        last_three_octets(a, second, third, fourth).contains(ip) <==> exists|x: u8, y: u8, z: u8|
            #[trigger] second.contains(x) && #[trigger] third.contains(y)
                && #[trigger] fourth.contains(z) && ip == v4(a, x, y, z),
    decreases second.len(),
{
    if second.len() > 0 {
        let front = second.drop_last();
        lemma_last_three_octets_hold(a, front, third, fourth, ip);
        lemma_last_two_octets_hold(a, second.last(), third, fourth, ip);
        lemma_concatenation_holds(
            last_three_octets(a, front, third, fourth),
            last_two_octets(a, second.last(), third, fourth),
            ip,
        );
        assert(second.contains(second.last()));
        if last_three_octets(a, front, third, fourth).contains(ip) {
            let (x, y, z) = choose|x: u8, y: u8, z: u8| #[trigger]
                front.contains(x) && #[trigger] third.contains(y) && #[trigger] fourth.contains(z)
                    && ip == v4(a, x, y, z);
            lemma_drop_last_holds(second, x);
        }
        if exists|x: u8, y: u8, z: u8| #[trigger]
            second.contains(x) && #[trigger] third.contains(y) && #[trigger] fourth.contains(z)
                && ip == v4(a, x, y, z) {
            let (x, y, z) = choose|x: u8, y: u8, z: u8| #[trigger]
                second.contains(x) && #[trigger] third.contains(y) && #[trigger] fourth.contains(z)
                    && ip == v4(a, x, y, z);
            lemma_drop_last_holds(second, x);
        }
    }
}

/// An address is selected exactly when each of its octets is in the list for it.
pub proof fn law_selected_addresses(
    first: Seq<u8>,
    second: Seq<u8>,
    third: Seq<u8>,
    fourth: Seq<u8>,
    ip: IpAddr,
)
    ensures
        all_octets(first, second, third, fourth).contains(ip) <==> exists|
            w: u8,
            x: u8,
            y: u8,
            z: u8,
        |
            #[trigger] first.contains(w) && #[trigger] second.contains(x)
                && #[trigger] third.contains(y) && #[trigger] fourth.contains(z) && ip == v4(
                w,
                x,
                y,
                z,
            ),
    decreases first.len(),
{
    if first.len() > 0 {
        let front = first.drop_last();
        law_selected_addresses(front, second, third, fourth, ip);
        lemma_last_three_octets_hold(first.last(), second, third, fourth, ip);
        lemma_concatenation_holds(
            all_octets(front, second, third, fourth),
            last_three_octets(first.last(), second, third, fourth),
            ip,
        );
        assert(first.contains(first.last()));
        if all_octets(front, second, third, fourth).contains(ip) {
            let (w, x, y, z) = choose|w: u8, x: u8, y: u8, z: u8| #[trigger]
                front.contains(w) && #[trigger] second.contains(x) && #[trigger] third.contains(y)
                    && #[trigger] fourth.contains(z) && ip == v4(w, x, y, z);
            lemma_drop_last_holds(first, w);
        }
        if exists|w: u8, x: u8, y: u8, z: u8| #[trigger]
            first.contains(w) && #[trigger] second.contains(x) && #[trigger] third.contains(y)
                && #[trigger] fourth.contains(z) && ip == v4(w, x, y, z) {
            let (w, x, y, z) = choose|w: u8, x: u8, y: u8, z: u8| #[trigger]
                first.contains(w) && #[trigger] second.contains(x) && #[trigger] third.contains(y)
                    && #[trigger] fourth.contains(z) && ip == v4(w, x, y, z);
            lemma_drop_last_holds(first, w);
        }
    }
}

/// The octets of an address among `last_octets`.
proof fn lemma_one_octet(a: u8, b: u8, c: u8, fourth: Seq<u8>, ip: IpAddr) -> (z: u8)
    requires
        last_octets(a, b, c, fourth).contains(ip),
    ensures
        fourth.contains(z),
        ip == v4(a, b, c, z),
{
    lemma_last_octets_hold(a, b, c, fourth, ip);
    choose|z: u8| #[trigger] fourth.contains(z) && ip == v4(a, b, c, z)
}

/// The octets of an address among `last_two_octets`.
proof fn lemma_two_octets(a: u8, b: u8, third: Seq<u8>, fourth: Seq<u8>, ip: IpAddr) -> (octets: (
    u8,
    u8,
))
    requires
        last_two_octets(a, b, third, fourth).contains(ip),
    ensures
        third.contains(octets.0),
        fourth.contains(octets.1),
        ip == v4(a, b, octets.0, octets.1),
{
    lemma_last_two_octets_hold(a, b, third, fourth, ip);
    choose|y: u8, z: u8| #[trigger]
        third.contains(y) && #[trigger] fourth.contains(z) && ip == v4(a, b, y, z)
}

/// The octets of an address among `last_three_octets`.
proof fn lemma_three_octets(
    a: u8,
    second: Seq<u8>,
    third: Seq<u8>,
    fourth: Seq<u8>,
    ip: IpAddr,
) -> (octets: (u8, u8, u8))
    requires
        last_three_octets(a, second, third, fourth).contains(ip),
    ensures
        second.contains(octets.0),
        third.contains(octets.1),
        fourth.contains(octets.2),
        ip == v4(a, octets.0, octets.1, octets.2),
{
    lemma_last_three_octets_hold(a, second, third, fourth, ip);
    choose|x: u8, y: u8, z: u8| #[trigger]
        second.contains(x) && #[trigger] third.contains(y) && #[trigger] fourth.contains(z) && ip
            == v4(a, x, y, z)
}

/// The octets of an address among `all_octets`.
proof fn lemma_four_octets(
    first: Seq<u8>,
    second: Seq<u8>,
    third: Seq<u8>,
    fourth: Seq<u8>,
    ip: IpAddr,
) -> (octets: (u8, u8, u8, u8))
    requires
        all_octets(first, second, third, fourth).contains(ip),
    ensures
        first.contains(octets.0),
        second.contains(octets.1),
        third.contains(octets.2),
        fourth.contains(octets.3),
        ip == v4(octets.0, octets.1, octets.2, octets.3),
{
    law_selected_addresses(first, second, third, fourth, ip);
    choose|w: u8, x: u8, y: u8, z: u8| #[trigger]
        first.contains(w) && #[trigger] second.contains(x) && #[trigger] third.contains(y)
            && #[trigger] fourth.contains(z) && ip == v4(w, x, y, z)
}

proof fn lemma_last_two_octets_count(a: u8, b: u8, third: Seq<u8>, fourth: Seq<u8>)
    ensures
        last_two_octets(a, b, third, fourth).len() == third.len() * fourth.len(),
    decreases third.len(),
{
    if third.len() > 0 {
        lemma_last_two_octets_count(a, b, third.drop_last(), fourth);
        lemma_one_more_row(third.len(), fourth.len());
    }
}

proof fn lemma_one_more_row(rows: nat, width: nat)
    requires
        rows > 0,
    ensures
        (rows - 1) * width + width == rows * width,
{
    assert((rows - 1) * width + width == rows * width) by (nonlinear_arith);
}

proof fn lemma_last_three_octets_count(a: u8, second: Seq<u8>, third: Seq<u8>, fourth: Seq<u8>)
    ensures
        last_three_octets(a, second, third, fourth).len() == second.len() * (third.len()
            * fourth.len()),
    decreases second.len(),
{
    if second.len() > 0 {
        lemma_last_three_octets_count(a, second.drop_last(), third, fourth);
        lemma_last_two_octets_count(a, second.last(), third, fourth);
        lemma_one_more_row(second.len(), third.len() * fourth.len());
    }
}

/// As many addresses are selected as there are ways to choose one value from
/// each list.
pub proof fn law_selected_count(
    first: Seq<u8>,
    second: Seq<u8>,
    third: Seq<u8>,
    fourth: Seq<u8>,
)
    ensures
        all_octets(first, second, third, fourth).len() == first.len() * (second.len() * (
        third.len() * fourth.len())),
    decreases first.len(),
{
    if first.len() > 0 {
        law_selected_count(first.drop_last(), second, third, fourth);
        lemma_last_three_octets_count(first.last(), second, third, fourth);
        lemma_one_more_row(first.len(), second.len() * (third.len() * fourth.len()));
    }
}

proof fn lemma_disjoint_concatenation<A>(left: Seq<A>, right: Seq<A>)
    requires
        left.no_duplicates(),
        right.no_duplicates(),
        forall|item: A| #[trigger] left.contains(item) ==> !right.contains(item),
    ensures
        (left + right).no_duplicates(),
{
    let both = left + right;
    assert forall|i: int, j: int| 0 <= i < j < both.len() implies both[i] != both[j] by {
        if i < left.len() && j >= left.len() {
            assert(left.contains(left[i]));
            assert(right.contains(right[j - left.len()]));
        }
    }
}

proof fn lemma_front_lacks_last<A>(items: Seq<A>)
    requires
        items.len() > 0,
        items.no_duplicates(),
    ensures
        items.drop_last().no_duplicates(),
        !items.drop_last().contains(items.last()),
{
}

proof fn lemma_last_two_octets_distinct(a: u8, b: u8, third: Seq<u8>, fourth: Seq<u8>)
    requires
        third.no_duplicates(),
        fourth.no_duplicates(),
    ensures
        last_two_octets(a, b, third, fourth).no_duplicates(),
    decreases third.len(),
{
    if third.len() > 0 {
        let front = third.drop_last();
        lemma_front_lacks_last(third);
        lemma_last_two_octets_distinct(a, b, front, fourth);
        let left = last_two_octets(a, b, front, fourth);
        let right = last_octets(a, b, third.last(), fourth);
        assert forall|i: int, j: int| 0 <= i < j < right.len() implies right[i] != right[j] by {
            if right[i] == right[j] {
                crate::address::law_dotted_form_is_unique(
                    a,
                    b,
                    third.last(),
                    fourth[i],
                    a,
                    b,
                    third.last(),
                    fourth[j],
                );
            }
        }
        assert forall|ip: IpAddr| #[trigger] left.contains(ip) implies !right.contains(ip) by {
            if right.contains(ip) {
                let l = lemma_two_octets(a, b, front, fourth, ip);
                let z = lemma_one_octet(a, b, third.last(), fourth, ip);
                crate::address::law_dotted_form_is_unique(a, b, l.0, l.1, a, b, third.last(), z);
            }
        }
        lemma_disjoint_concatenation(left, right);
    }
}

proof fn lemma_last_three_octets_distinct(
    a: u8,
    second: Seq<u8>,
    third: Seq<u8>,
    fourth: Seq<u8>,
)
    requires
        second.no_duplicates(),
        third.no_duplicates(),
        fourth.no_duplicates(),
    ensures
        last_three_octets(a, second, third, fourth).no_duplicates(),
    decreases second.len(),
{
    if second.len() > 0 {
        let front = second.drop_last();
        lemma_front_lacks_last(second);
        lemma_last_three_octets_distinct(a, front, third, fourth);
        lemma_last_two_octets_distinct(a, second.last(), third, fourth);
        let left = last_three_octets(a, front, third, fourth);
        let right = last_two_octets(a, second.last(), third, fourth);
        assert forall|ip: IpAddr| #[trigger] left.contains(ip) implies !right.contains(ip) by {
            if right.contains(ip) {
                let l = lemma_three_octets(a, front, third, fourth, ip);
                let r = lemma_two_octets(a, second.last(), third, fourth, ip);
                crate::address::law_dotted_form_is_unique(
                    a,
                    l.0,
                    l.1,
                    l.2,
                    a,
                    second.last(),
                    r.0,
                    r.1,
                );
            }
        }
        lemma_disjoint_concatenation(left, right);
    }
}

/// Lists without repeats select no address twice.
pub proof fn law_selected_addresses_are_distinct(
    first: Seq<u8>,
    second: Seq<u8>,
    third: Seq<u8>,
    fourth: Seq<u8>,
)
    requires
        first.no_duplicates(),
        second.no_duplicates(),
        third.no_duplicates(),
        fourth.no_duplicates(),
    ensures
        all_octets(first, second, third, fourth).no_duplicates(),
    decreases first.len(),
{
    if first.len() > 0 {
        let front = first.drop_last();
        lemma_front_lacks_last(first);
        law_selected_addresses_are_distinct(front, second, third, fourth);
        lemma_last_three_octets_distinct(first.last(), second, third, fourth);
        let left = all_octets(front, second, third, fourth);
        let right = last_three_octets(first.last(), second, third, fourth);
        assert forall|ip: IpAddr| #[trigger] left.contains(ip) implies !right.contains(ip) by {
            if right.contains(ip) {
                let l = lemma_four_octets(front, second, third, fourth, ip);
                let r = lemma_three_octets(first.last(), second, third, fourth, ip);
                crate::address::law_dotted_form_is_unique(
                    l.0,
                    l.1,
                    l.2,
                    l.3,
                    first.last(),
                    r.0,
                    r.1,
                    r.2,
                );
            }
        }
        lemma_disjoint_concatenation(left, right);
    }
}

/// A range string selects what its four octet selectors select when given apart.
pub proof fn law_range_is_its_octets(
    octet1: Seq<char>,
    octet2: Seq<char>,
    octet3: Seq<char>,
    octet4: Seq<char>,
)
    requires
        !octet1.contains('.'),
        !octet2.contains('.'),
        !octet3.contains('.'),
        !octet4.contains('.'),
    ensures
        range_selects(join(seq![octet1, octet2, octet3, octet4], '.')) == octets_select(
            octet1,
            octet2,
            octet3,
            octet4,
        ),
{
    let parts = seq![octet1, octet2, octet3, octet4];
    assert forall|i: int| 0 <= i < parts.len() implies !(#[trigger] parts[i]).contains('.') by {
        if i == 0 {
            assert(parts[i] == octet1);
        } else if i == 1 {
            assert(parts[i] == octet2);
        } else if i == 2 {
            assert(parts[i] == octet3);
        } else {
            assert(parts[i] == octet4);
        }
    }
    law_join_then_split(parts, '.');
    law_range_has_four_parts(join(parts, '.'));
}

/// What an accepted range string selects is never empty and holds no address twice.
pub proof fn law_range_selects_each_address_once(range_str: Seq<char>)
    requires
        range_selects(range_str) is Ok,
    ensures
        range_selects(range_str)->Ok_0.len() > 0,
        range_selects(range_str)->Ok_0.no_duplicates(),
{
    let parts = split(range_str, '.');
    law_octets_select_each_address_once(parts[0], parts[1], parts[2], parts[3]);
}

/// What four accepted octet selectors select is never empty and holds no address
/// twice.
pub proof fn law_octets_select_each_address_once(
    octet1: Seq<char>,
    octet2: Seq<char>,
    octet3: Seq<char>,
    octet4: Seq<char>,
)
    requires
        octets_select(octet1, octet2, octet3, octet4) is Ok,
    ensures
        octets_select(octet1, octet2, octet3, octet4)->Ok_0.len() > 0,
        octets_select(octet1, octet2, octet3, octet4)->Ok_0.no_duplicates(),
{
    law_selector_names_each_value_once(octet1);
    law_selector_names_each_value_once(octet2);
    law_selector_names_each_value_once(octet3);
    law_selector_names_each_value_once(octet4);
    let first = selected(octet1)->Ok_0;
    let second = selected(octet2)->Ok_0;
    let third = selected(octet3)->Ok_0;
    let fourth = selected(octet4)->Ok_0;
    law_selected_addresses_are_distinct(first, second, third, fourth);
    law_selected_addresses(
        first,
        second,
        third,
        fourth,
        v4(first[0], second[0], third[0], fourth[0]),
    );
}

/// Whether the values grow from one to the next.
pub open spec fn ascending(values: Seq<u8>) -> bool {
    forall|i: int, j: int| 0 <= i < j < values.len() ==> values[i] < values[j]
}

/// The value of an IPv4 address.
pub open spec fn v4_value(ip: IpAddr) -> u32 {
    match ip {
        IpAddr::V4(ip) => ip.bits,
        IpAddr::V6(_) => 0,
    }
}

/// Whether all addresses are of version four and grow from one to the next.
pub open spec fn addresses_ascend(ips: Seq<IpAddr>) -> bool {
    &&& forall|i: int| 0 <= i < ips.len() ==> (#[trigger] ips[i]) is V4
    &&& forall|i: int, j: int|
        0 <= i < j < ips.len() ==> v4_value(#[trigger] ips[i]) < v4_value(#[trigger] ips[j])
}

proof fn lemma_place_in_rows(rows: int, width: int, row: int, column: int)
    requires
        0 <= row < rows,
        0 <= column < width,
    ensures
        0 <= row * width,
        row * width + column < rows * width,
        row < rows - 1 ==> row * width + column < (rows - 1) * width,
{
    assert(0 <= row * width && row * width + column < rows * width && (row < rows - 1 ==> row
        * width + column < (rows - 1) * width)) by (nonlinear_arith)
        requires
            0 <= row < rows,
            0 <= column < width,
    ;
}

proof fn lemma_last_two_octets_at(
    a: u8,
    b: u8,
    third: Seq<u8>,
    fourth: Seq<u8>,
    k: int,
    l: int,
)
    requires
        0 <= k < third.len(),
        0 <= l < fourth.len(),
    ensures
        0 <= k * fourth.len() + l < third.len() * fourth.len(),
        last_two_octets(a, b, third, fourth)[k * fourth.len() + l] == v4(
            a,
            b,
            third[k],
            fourth[l],
        ),
    decreases third.len(),
{
    let front = third.drop_last();
    lemma_place_in_rows(third.len() as int, fourth.len() as int, k, l);
    lemma_last_two_octets_count(a, b, front, fourth);
    if k < third.len() - 1 {
        lemma_last_two_octets_at(a, b, front, fourth, k, l);
    }
}

proof fn lemma_last_three_octets_at(
    a: u8,
    second: Seq<u8>,
    third: Seq<u8>,
    fourth: Seq<u8>,
    j: int,
    k: int,
    l: int,
)
    requires
        0 <= j < second.len(),
        0 <= k < third.len(),
        0 <= l < fourth.len(),
    ensures
        ({
            let place = j * (third.len() * fourth.len()) + (k * fourth.len() + l);
            &&& 0 <= place < second.len() * (third.len() * fourth.len())
            &&& last_three_octets(a, second, third, fourth)[place] == v4(
                a,
                second[j],
                third[k],
                fourth[l],
            )
        }),
    decreases second.len(),
{
    let front = second.drop_last();
    let width = (third.len() * fourth.len()) as int;
    lemma_last_two_octets_at(a, second[j], third, fourth, k, l);
    lemma_place_in_rows(second.len() as int, width, j, k * fourth.len() + l);
    lemma_last_three_octets_count(a, front, third, fourth);
    lemma_last_two_octets_count(a, second.last(), third, fourth);
    if j < second.len() - 1 {
        lemma_last_three_octets_at(a, front, third, fourth, j, k, l);
    }
}

/// The place of each address: the addresses are in the order of the lists, the last
/// octet running fastest.
pub proof fn law_selected_place(
    first: Seq<u8>,
    second: Seq<u8>,
    third: Seq<u8>,
    fourth: Seq<u8>,
    i: int,
    j: int,
    k: int,
    l: int,
)
    requires
        0 <= i < first.len(),
        0 <= j < second.len(),
        0 <= k < third.len(),
        0 <= l < fourth.len(),
    ensures
        ({
            let place = i * (second.len() * (third.len() * fourth.len())) + (j * (third.len()
                * fourth.len()) + (k * fourth.len() + l));
            &&& 0 <= place < all_octets(first, second, third, fourth).len()
            &&& all_octets(first, second, third, fourth)[place] == v4(
                first[i],
                second[j],
                third[k],
                fourth[l],
            )
        }),
    decreases first.len(),
{
    let front = first.drop_last();
    let width = (second.len() * (third.len() * fourth.len())) as int;
    let column = j * (third.len() * fourth.len()) + (k * fourth.len() + l);
    lemma_last_three_octets_at(first[i], second, third, fourth, j, k, l);
    lemma_place_in_rows(first.len() as int, width, i, column);
    law_selected_count(front, second, third, fourth);
    law_selected_count(first, second, third, fourth);
    if i < first.len() - 1 {
        law_selected_place(front, second, third, fourth, i, j, k, l);
    }
}

proof fn lemma_ascending_concatenation(left: Seq<IpAddr>, right: Seq<IpAddr>)
    requires
        addresses_ascend(left),
        addresses_ascend(right),
        forall|x: IpAddr, y: IpAddr| #[trigger]
            left.contains(x) && #[trigger] right.contains(y) ==> v4_value(x) < v4_value(y),
    ensures
        addresses_ascend(left + right),
{
    let both = left + right;
    assert forall|i: int, j: int| 0 <= i < j < both.len() implies v4_value(#[trigger] both[i])
        < v4_value(#[trigger] both[j]) by {
        if i < left.len() && j >= left.len() {
            assert(left.contains(left[i]));
            assert(right.contains(right[j - left.len()]));
        } else if j < left.len() {
            assert(v4_value(left[i]) < v4_value(left[j]));
        } else {
            assert(v4_value(right[i - left.len()]) < v4_value(right[j - left.len()]));
        }
    }
}

proof fn lemma_last_octets_ascend(a: u8, b: u8, c: u8, fourth: Seq<u8>)
    requires
        ascending(fourth),
    ensures
        addresses_ascend(last_octets(a, b, c, fourth)),
{
    let ips = last_octets(a, b, c, fourth);
    assert forall|i: int, j: int| 0 <= i < j < ips.len() implies v4_value(#[trigger] ips[i])
        < v4_value(#[trigger] ips[j]) by {
        assert(fourth[i] < fourth[j]);
    }
}

proof fn lemma_last_two_octets_ascend(a: u8, b: u8, third: Seq<u8>, fourth: Seq<u8>)
    requires
        ascending(third),
        ascending(fourth),
    ensures
        addresses_ascend(last_two_octets(a, b, third, fourth)),
    decreases third.len(),
{
    if third.len() > 0 {
        let front = third.drop_last();
        lemma_last_two_octets_ascend(a, b, front, fourth);
        lemma_last_octets_ascend(a, b, third.last(), fourth);
        let left = last_two_octets(a, b, front, fourth);
        let right = last_octets(a, b, third.last(), fourth);
        assert forall|x: IpAddr, y: IpAddr| #[trigger]
            left.contains(x) && #[trigger] right.contains(y) implies v4_value(x) < v4_value(y) by {
            let l = lemma_two_octets(a, b, front, fourth, x);
            let z = lemma_one_octet(a, b, third.last(), fourth, y);
            lemma_front_is_below_last(third);
            assert(l.0 < third.last());
        }
        lemma_ascending_concatenation(left, right);
    }
}

proof fn lemma_front_is_below_last(values: Seq<u8>)
    requires
        values.len() > 0,
        ascending(values),
    ensures
        ascending(values.drop_last()),
        forall|value: u8| #[trigger]
            values.drop_last().contains(value) ==> value < values.last(),
{
}

proof fn lemma_last_three_octets_ascend(
    a: u8,
    second: Seq<u8>,
    third: Seq<u8>,
    fourth: Seq<u8>,
)
    requires
        ascending(second),
        ascending(third),
        ascending(fourth),
    ensures
        addresses_ascend(last_three_octets(a, second, third, fourth)),
    decreases second.len(),
{
    if second.len() > 0 {
        let front = second.drop_last();
        lemma_last_three_octets_ascend(a, front, third, fourth);
        lemma_last_two_octets_ascend(a, second.last(), third, fourth);
        let left = last_three_octets(a, front, third, fourth);
        let right = last_two_octets(a, second.last(), third, fourth);
        assert forall|x: IpAddr, y: IpAddr| #[trigger]
            left.contains(x) && #[trigger] right.contains(y) implies v4_value(x) < v4_value(y) by {
            let l = lemma_three_octets(a, front, third, fourth, x);
            let r = lemma_two_octets(a, second.last(), third, fourth, y);
            lemma_front_is_below_last(second);
            assert(l.0 < second.last());
        }
        lemma_ascending_concatenation(left, right);
    }
}

/// Lists that ascend select addresses that ascend.
pub proof fn law_selected_addresses_ascend(
    first: Seq<u8>,
    second: Seq<u8>,
    third: Seq<u8>,
    fourth: Seq<u8>,
)
    requires
        ascending(first),
        ascending(second),
        ascending(third),
        ascending(fourth),
    ensures
        addresses_ascend(all_octets(first, second, third, fourth)),
    decreases first.len(),
{
    if first.len() > 0 {
        let front = first.drop_last();
        law_selected_addresses_ascend(front, second, third, fourth);
        lemma_last_three_octets_ascend(first.last(), second, third, fourth);
        let left = all_octets(front, second, third, fourth);
        let right = last_three_octets(first.last(), second, third, fourth);
        assert forall|x: IpAddr, y: IpAddr| #[trigger]
            left.contains(x) && #[trigger] right.contains(y) implies v4_value(x) < v4_value(y) by {
            let l = lemma_four_octets(front, second, third, fourth, x);
            let r = lemma_three_octets(first.last(), second, third, fourth, y);
            lemma_front_is_below_last(first);
            assert(l.0 < first.last());
        }
        lemma_ascending_concatenation(left, right);
    }
}

/// What four accepted octet selectors select ascends.
pub proof fn law_octets_select_in_order(
    octet1: Seq<char>,
    octet2: Seq<char>,
    octet3: Seq<char>,
    octet4: Seq<char>,
)
    requires
        octets_select(octet1, octet2, octet3, octet4) is Ok,
    ensures
        addresses_ascend(octets_select(octet1, octet2, octet3, octet4)->Ok_0),
{
    law_selected_addresses_ascend(
        selected(octet1)->Ok_0,
        selected(octet2)->Ok_0,
        selected(octet3)->Ok_0,
        selected(octet4)->Ok_0,
    );
}

/// What an accepted range string selects ascends.
pub proof fn law_range_selects_in_order(range_str: Seq<char>)
    requires
        range_selects(range_str) is Ok,
    ensures
        addresses_ascend(range_selects(range_str)->Ok_0),
{
    let parts = split(range_str, '.');
    law_octets_select_in_order(parts[0], parts[1], parts[2], parts[3]);
}

/// A selector without `-` names the one value that it reads as.
pub proof fn law_selector_of_one_value(text: Seq<char>)
    requires
        !text.contains('-'),
    ensures
        match octet(text) {
            Ok(value) => selected(text) == Ok::<Seq<u8>, ErrorModel>(seq![value]),
            Err(cause) => selected(text) == Err::<Seq<u8>, ErrorModel>(
                ErrorModel::Octet { cause },
            ),
        },
{
}

/// A selector with one `-` names the values between its bounds, both included, and no
/// others, in ascending order. Where a bound does not read, the first such is reported;
/// bounds in the wrong order are refused with the whole text.
pub proof fn law_selector_of_a_range(low: Seq<char>, high: Seq<char>)
    requires
        !low.contains('-'),
        !high.contains('-'),
    ensures
        ({
            let text = low.push('-') + high;
            match (octet(low), octet(high)) {
                (Err(cause), _) => selected(text) == Err::<Seq<u8>, ErrorModel>(
                    ErrorModel::Octet { cause },
                ),
                (Ok(_), Err(cause)) => selected(text) == Err::<Seq<u8>, ErrorModel>(
                    ErrorModel::Octet { cause },
                ),
                (Ok(start), Ok(end)) => if start > end {
                    selected(text) == Err::<Seq<u8>, ErrorModel>(ErrorModel::RangeOrder { text })
                } else {
                    &&& selected(text) is Ok
                    &&& forall|value: u8| #[trigger]
                        selected(text)->Ok_0.contains(value) <==> start <= value <= end
                    &&& forall|i: int, j: int|
                        0 <= i < j < selected(text)->Ok_0.len() ==> selected(text)->Ok_0[i]
                            < selected(text)->Ok_0[j]
                },
            }
        }),
{
    let text = low.push('-') + high;
    law_only_piece(low, '-');
    law_last_piece(low, '-', high);
    assert(split(text, '-') =~= seq![low, high]);
    assert(text[low.len() as int] == '-');
    assert(text.contains('-'));
    if let (Ok(start), Ok(end)) = (octet(low), octet(high)) {
        if start <= end {
            let values = selected(text)->Ok_0;
            assert forall|value: u8| #[trigger] values.contains(value) <==> start <= value <= end by {
                if start <= value <= end {
                    assert(values[value - start] == value);
                }
            }
        }
    }
}

/// A selector with more than one `-` is refused with the whole text.
pub proof fn law_selector_with_two_dashes(text: Seq<char>, i: int, j: int)
    requires
        0 <= i < j < text.len(),
        text[i] == '-',
        text[j] == '-',
    ensures
        selected(text) == Err::<Seq<u8>, ErrorModel>(ErrorModel::RangeFormat { text }),
{
    law_separators_make_pieces(text, '-', i, j);
    assert(text.contains('-'));
}

/// Four selectors are accepted exactly when each is, the first that is not is reported,
/// and they select the addresses each of whose octets is named by the selector for it.
pub proof fn law_octets_select_by_octet(
    octet1: Seq<char>,
    octet2: Seq<char>,
    octet3: Seq<char>,
    octet4: Seq<char>,
    w: u8,
    x: u8,
    y: u8,
    z: u8,
)
    ensures
        ({
            let selection = octets_select(octet1, octet2, octet3, octet4);
            match (selected(octet1), selected(octet2), selected(octet3), selected(octet4)) {
                (Ok(first), Ok(second), Ok(third), Ok(fourth)) => {
                    &&& selection is Ok
                    &&& selection->Ok_0.len() == first.len() * (second.len() * (third.len()
                        * fourth.len()))
                    &&& selection->Ok_0.contains(v4(w, x, y, z)) <==> first.contains(w)
                        && second.contains(x) && third.contains(y) && fourth.contains(z)
                },
                (Err(error), _, _, _) => selection == Err::<Seq<IpAddr>, ErrorModel>(error),
                (Ok(_), Err(error), _, _) => selection == Err::<Seq<IpAddr>, ErrorModel>(error),
                (Ok(_), Ok(_), Err(error), _) => selection == Err::<Seq<IpAddr>, ErrorModel>(
                    error,
                ),
                (Ok(_), Ok(_), Ok(_), Err(error)) => selection == Err::<Seq<IpAddr>, ErrorModel>(
                    error,
                ),
            }
        }),
{
    if let (Ok(first), Ok(second), Ok(third), Ok(fourth)) = (
        selected(octet1),
        selected(octet2),
        selected(octet3),
        selected(octet4),
    ) {
        let ip = v4(w, x, y, z);
        law_selected_count(first, second, third, fourth);
        law_selected_addresses(first, second, third, fourth, ip);
        if all_octets(first, second, third, fourth).contains(ip) {
            let o = lemma_four_octets(first, second, third, fourth, ip);
            crate::address::law_dotted_form_is_unique(w, x, y, z, o.0, o.1, o.2, o.3);
        }
    }
}

/// A range string is refused for its parts exactly when dots do not part it in four.
pub proof fn law_range_has_four_parts(range_str: Seq<char>)
    ensures
        split(range_str, '.').len() != 4 ==> range_selects(range_str) == Err::<
            Seq<IpAddr>,
            ErrorModel,
        >(ErrorModel::RangeParts),
        split(range_str, '.').len() == 4 ==> range_selects(range_str) == octets_select(
            split(range_str, '.')[0],
            split(range_str, '.')[1],
            split(range_str, '.')[2],
            split(range_str, '.')[3],
        ),
{
}

} // verus!
