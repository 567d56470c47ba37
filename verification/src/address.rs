//! The IP addresses of a load balancer.
use crate::text::{
    decimal, join_with, law_join_splits, lemma_decimal_digits, lemma_decimal_injective, split_on,
    texts,
};
use hickory_proto::rr::rdata::{A, AAAA};
use std::str::FromStr;
use vstd::prelude::*;

verus! {

/// An address that an A or an AAAA record can hold.
#[derive(Clone, Copy, Debug, PartialEq, Eq, Structural)]
pub enum IpAddress {
    /// The four octets of an IPv4 address, in the order in which they are written.
    V4(u8, u8, u8, u8),
    /// The 128 bits of an IPv6 address, the first group in the highest bits.
    V6(u128),
}

/// Four octets in dotted decimal notation.
pub open spec fn dotted(a: u8, b: u8, c: u8, d: u8) -> Seq<char> {
    decimal(a as nat).push('.') + decimal(b as nat).push('.') + decimal(c as nat).push('.')
        + decimal(d as nat)
}

/// What `AAAA::from_str` makes of a text: the bits of the address, or nothing where it refuses the
/// text.
pub uninterp spec fn parsed_ipv6(text: Seq<char>) -> Option<u128>;

/// What `Display` writes for an IPv6 address.
pub uninterp spec fn ipv6_text(bits: u128) -> Seq<char>;

/// The IPv4 address that `text` writes in dotted decimal notation, if it does.
pub open spec fn parsed_ipv4(text: Seq<char>) -> Option<IpAddress> {
    if exists|a: u8, b: u8, c: u8, d: u8| text == #[trigger] dotted(a, b, c, d) {
        let (a, b, c, d) = choose|a: u8, b: u8, c: u8, d: u8|
            text == #[trigger] dotted(a, b, c, d);
        Some(IpAddress::V4(a, b, c, d))
    } else {
        None
    }
}

/// The address that `text` stands for, if any: dotted decimal notation first, IPv6 otherwise.
pub open spec fn parsed_address(text: Seq<char>) -> Option<IpAddress> {
    if parsed_ipv4(text) is Some {
        parsed_ipv4(text)
    } else if parsed_ipv6(text) is Some {
        Some(IpAddress::V6(parsed_ipv6(text)->0))
    } else {
        None
    }
}

/// The addresses among `texts`, in order; a text that stands for none is left out.
pub open spec fn parsed_addresses(texts: Seq<Seq<char>>) -> Seq<IpAddress>
    decreases texts.len(),
{
    if texts.len() == 0 {
        Seq::empty()
    } else {
        let front = parsed_addresses(texts.drop_last());
        match parsed_address(texts.last()) {
            Some(address) => front.push(address),
            None => front,
        }
    }
}

/// A number and the separator after it can be told from what follows.
proof fn lemma_first_number(n: nat, rest: Seq<char>, m: nat, other: Seq<char>)
    requires
        decimal(n).push('.') + rest == decimal(m).push('.') + other,
    ensures
        n == m,
        rest == other,
{
    lemma_decimal_digits(n);
    lemma_decimal_digits(m);
    let whole = decimal(n).push('.') + rest;
    let i = decimal(n).len() as int;
    let j = decimal(m).len() as int;
    assert(whole[i] == '.');
    assert((decimal(m).push('.') + other)[j] == '.');
    assert(i == j) by {
        if i < j {
            assert(whole[i] == decimal(m)[i]);
        }
        if j < i {
            assert(whole[j] == decimal(n)[j]);
        }
    }
    assert(decimal(n) == whole.take(i));
    assert(decimal(m) == whole.take(i));
    lemma_decimal_injective(n, m);
    assert(rest == whole.skip(i + 1));
    assert(other == whole.skip(i + 1));
}

/// Two IPv4 addresses are written alike only if their octets agree.
pub proof fn lemma_dotted_injective(
    a: u8,
    b: u8,
    c: u8,
    d: u8,
    e: u8,
    f: u8,
    g: u8,
    h: u8,
)
    requires
        dotted(a, b, c, d) == dotted(e, f, g, h),
    ensures
        a == e,
        b == f,
        c == g,
        d == h,
{
    let x3 = decimal(d as nat);
    let y3 = decimal(h as nat);
    let x2 = decimal(c as nat).push('.') + x3;
    let y2 = decimal(g as nat).push('.') + y3;
    let x1 = decimal(b as nat).push('.') + x2;
    let y1 = decimal(f as nat).push('.') + y2;
    assert(dotted(a, b, c, d) == decimal(a as nat).push('.') + x1);
    assert(dotted(e, f, g, h) == decimal(e as nat).push('.') + y1);
    lemma_first_number(a as nat, x1, e as nat, y1);
    lemma_first_number(b as nat, x2, f as nat, y2);
    lemma_first_number(c as nat, x3, g as nat, y3);
    lemma_decimal_injective(d as nat, h as nat);
}

/// The text of an IPv4 address reads back as that address.
pub proof fn law_ipv4_text_reads_back(a: u8, b: u8, c: u8, d: u8)
    ensures
        parsed_address(IpAddress::V4(a, b, c, d).spec_text()) == Some(IpAddress::V4(a, b, c, d)),
{
    let text = dotted(a, b, c, d);
    let (e, f, g, h) = choose|e: u8, f: u8, g: u8, h: u8|
        text == #[trigger] dotted(e, f, g, h);
    lemma_dotted_injective(a, b, c, d, e, f, g, h);
}

/// `A::from_str`: accepts exactly the texts in dotted decimal notation without leading zeros, and
/// gives their octets.
#[verifier::external_body]
fn ipv4_from_str(text: &str) -> (r: Option<(u8, u8, u8, u8)>)
    ensures
        r matches Some(o) ==> text@ == dotted(o.0, o.1, o.2, o.3),
        r is None ==> forall|a: u8, b: u8, c: u8, d: u8| text@ != #[trigger] dotted(a, b, c, d),
{
    match A::from_str(text) {
        Ok(address) => {
            let octets = address.octets();
            Some((octets[0], octets[1], octets[2], octets[3]))
        },
        Err(_) => None,
    }
}

/// `AAAA::from_str`: the result is a function of the text.
#[verifier::external_body]
fn ipv6_from_str(text: &str) -> (r: Option<u128>)
    ensures
        r == parsed_ipv6(text@),
{
    match AAAA::from_str(text) {
        Ok(address) => Some(u128::from(address.0)),
        Err(_) => None,
    }
}

/// `Display` of an `A`: the octets in dotted decimal notation.
#[verifier::external_body]
fn ipv4_to_string(a: u8, b: u8, c: u8, d: u8) -> (r: String)
    ensures
        r@ == dotted(a, b, c, d),
{
    A::new(a, b, c, d).to_string()
}

/// `Display` of an `AAAA`: the text is a function of the bits.
#[verifier::external_body]
fn ipv6_to_string(bits: u128) -> (r: String)
    ensures
        r@ == ipv6_text(bits),
{
    AAAA(bits.into()).to_string()
}

impl IpAddress {
    /// The text of the address.
    pub open spec fn spec_text(self) -> Seq<char> {
        match self {
            IpAddress::V4(a, b, c, d) => dotted(a, b, c, d),
            IpAddress::V6(bits) => ipv6_text(bits),
        }
    }

    /// The text of the address.
    pub fn text(&self) -> (r: String)
        ensures
            r@ == self.spec_text(),
    {
        match *self {
            IpAddress::V4(a, b, c, d) => ipv4_to_string(a, b, c, d),
            IpAddress::V6(bits) => ipv6_to_string(bits),
        }
    }

    /// Reads an address out of its text.
    pub fn parse(text: &str) -> (r: Option<IpAddress>)
        ensures
            r == parsed_address(text@),
    {
        match ipv4_from_str(text) {
            Some((a, b, c, d)) => {
                proof {
                    law_ipv4_text_reads_back(a, b, c, d);
                }
                Some(IpAddress::V4(a, b, c, d))
            },
            None => match ipv6_from_str(text) {
                Some(bits) => Some(IpAddress::V6(bits)),
                None => None,
            },
        }
    }
}

/// The addresses among `strings`, in order; a text that is no address is left out.
pub fn parse_addresses(strings: &Vec<String>) -> (r: Vec<IpAddress>)
    ensures
        r@ == parsed_addresses(texts(strings@)),
{
    let mut r: Vec<IpAddress> = Vec::new();
    for i in 0..strings.len()
        invariant
            r@ == parsed_addresses(texts(strings@).take(i as int)),
    {
        proof {
            let all = texts(strings@);
            assert(all.take(i + 1).drop_last() == all.take(i as int));
            assert(all.take(i + 1).last() == strings@[i as int]@);
        }
        if let Some(address) = IpAddress::parse(strings[i].as_str()) {
            r.push(address);
        }
    }
    assert(texts(strings@).take(strings@.len() as int) == texts(strings@));
    r
}

/// An IPv4 address is written as its four octets in decimal, with a dot between neighbours.
pub proof fn law_ipv4_text_has_four_numbers(a: u8, b: u8, c: u8, d: u8)
    ensures
        split_on(IpAddress::V4(a, b, c, d).spec_text(), '.') == seq![
            decimal(a as nat),
            decimal(b as nat),
            decimal(c as nat),
            decimal(d as nat),
        ],
{
    let parts = seq![decimal(a as nat), decimal(b as nat), decimal(c as nat), decimal(d as nat)];
    lemma_decimal_digits(a as nat);
    lemma_decimal_digits(b as nat);
    lemma_decimal_digits(c as nat);
    lemma_decimal_digits(d as nat);
    assert forall|i: int| 0 <= i < parts.len() implies !(#[trigger] parts[i]).contains('.') by {
        if parts[i].contains('.') {
            let k = choose|k: int| 0 <= k < parts[i].len() && parts[i][k] == '.';
            assert('0' <= parts[i][k] <= '9');
        }
    }
    law_join_splits(parts, '.');
    let three = parts.drop_last();
    let two = three.drop_last();
    let one = two.drop_last();
    assert(join_with(one, '.') == decimal(a as nat)) by {
        assert(one.len() == 1);
        assert(one[0] == parts[0]);
    }
    assert(join_with(two, '.') == decimal(a as nat).push('.') + decimal(b as nat)) by {
        assert(two.len() == 2);
        assert(two.last() == parts[1]);
    }
    assert(join_with(three, '.') == join_with(two, '.').push('.') + decimal(c as nat)) by {
        assert(three.len() == 3);
        assert(three.last() == parts[2]);
    }
    assert(join_with(parts, '.') == join_with(three, '.').push('.') + decimal(d as nat)) by {
        assert(parts.last() == parts[3]);
    }
    assert(join_with(parts, '.') =~= dotted(a, b, c, d));
}

/// A text stands for an IPv4 address exactly if it writes that address; every other text stands for
/// what it is as an IPv6 address, if it is one, and for nothing else.
pub proof fn law_address_is_what_the_text_writes(text: Seq<char>)
    ensures
        forall|a: u8, b: u8, c: u8, d: u8|
            parsed_address(text) == Some(IpAddress::V4(a, b, c, d)) <==> text == #[trigger] dotted(
                a,
                b,
                c,
                d,
            ),
        (forall|a: u8, b: u8, c: u8, d: u8| text != #[trigger] dotted(a, b, c, d)) ==> {
            &&& parsed_ipv6(text) is None ==> parsed_address(text) is None
            &&& parsed_ipv6(text) is Some ==> parsed_address(text) == Some(
                IpAddress::V6(parsed_ipv6(text)->0),
            )
        },
{
    assert forall|a: u8, b: u8, c: u8, d: u8|
        parsed_address(text) == Some(IpAddress::V4(a, b, c, d)) <==> text == #[trigger] dotted(
            a,
            b,
            c,
            d,
        ) by {
        if text == dotted(a, b, c, d) {
            law_ipv4_text_reads_back(a, b, c, d);
        }
    }
}

/// Every text that stands for an address gives that address, and no address comes from anything else.
pub proof fn law_no_address_is_lost(texts: Seq<Seq<char>>)
    ensures
        forall|i: int|
            0 <= i < texts.len() && parsed_address(#[trigger] texts[i]) is Some ==> parsed_addresses(
                texts,
            ).contains(parsed_address(texts[i])->0),
        forall|address: IpAddress| #[trigger]
            parsed_addresses(texts).contains(address) ==> exists|i: int|
                0 <= i < texts.len() && parsed_address(#[trigger] texts[i]) == Some(address),
    decreases texts.len(),
{
    let all = parsed_addresses(texts);
    if texts.len() > 0 {
        let front = texts.drop_last();
        let before = parsed_addresses(front);
        law_no_address_is_lost(front);
        assert forall|i: int|
            0 <= i < texts.len() && parsed_address(#[trigger] texts[i]) is Some implies all.contains(
            parsed_address(texts[i])->0,
        ) by {
            let address = parsed_address(texts[i])->0;
            if i < front.len() {
                assert(front[i] == texts[i]);
                let k = choose|k: int| 0 <= k < before.len() && before[k] == address;
                assert(all[k] == address);
            } else {
                assert(all[before.len() as int] == address);
            }
        }
        assert forall|address: IpAddress| #[trigger] all.contains(address) implies exists|i: int|
            0 <= i < texts.len() && parsed_address(#[trigger] texts[i]) == Some(address) by {
            let k = choose|k: int| 0 <= k < all.len() && all[k] == address;
            if k < before.len() {
                assert(before[k] == address);
                assert(before.contains(address));
                let i = choose|i: int|
                    0 <= i < front.len() && parsed_address(#[trigger] front[i]) == Some(address);
                assert(texts[i] == front[i]);
            } else {
                assert(parsed_address(texts[texts.len() - 1]) == Some(address));
            }
        }
    }
}

/// The addresses of texts one after the other are those of the first texts and then those of the
/// others; a single text gives its address alone, or nothing.
pub proof fn law_addresses_keep_their_order(texts: Seq<Seq<char>>, others: Seq<Seq<char>>)
    ensures
        parsed_addresses(texts + others) == parsed_addresses(texts) + parsed_addresses(others),
        texts.len() == 1 && parsed_address(texts[0]) is None ==> parsed_addresses(texts).len() == 0,
        texts.len() == 1 && parsed_address(texts[0]) is Some ==> parsed_addresses(texts) == seq![
            parsed_address(texts[0])->0,
        ],
    decreases others.len(),
{
    if texts.len() == 1 {
        assert(texts.drop_last().len() == 0);
        assert(parsed_addresses(texts.drop_last()).len() == 0);
        assert(texts.last() == texts[0]);
        if parsed_address(texts[0]) is Some {
            assert(parsed_addresses(texts) =~= seq![parsed_address(texts[0])->0]);
        }
    }
    if others.len() == 0 {
        assert(texts + others == texts);
        assert(parsed_addresses(texts) + parsed_addresses(others) =~= parsed_addresses(texts));
    } else {
        law_addresses_keep_their_order(texts, others.drop_last());
        assert((texts + others).drop_last() == texts + others.drop_last());
        assert((texts + others).last() == others.last());
        assert(parsed_addresses(texts + others) =~= parsed_addresses(texts) + parsed_addresses(
            others,
        ));
    }
}

/// The text of an IPv6 address is the one that the DNS library writes for its bits.
pub proof fn law_ipv6_text_is_that_of_the_bits(bits: u128)
    ensures
        IpAddress::V6(bits).spec_text() == ipv6_text(bits),
{
}

} // verus!
