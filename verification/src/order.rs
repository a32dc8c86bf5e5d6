use vstd::prelude::*;

use crate::error::ParseError;
use crate::text;

verus! {

/// A request for `qty` units of the product `product_id`.
#[derive(Debug, Clone, Copy, PartialEq, Eq, Structural)]
pub struct Order {
    product_id: u64,
    qty: u64,
}

/// What `Order::from_str` gives for the text `s`: the text is trimmed and split at
/// commas; the first piece, trimmed, is the product and the second, trimmed, the quantity.
/// Pieces after the second are not read.
pub open spec fn parse_order(s: Seq<char>) -> Result<(u64, u64), ParseError> {
    let t = text::trim(s);
    match text::parse_unsigned(text::trim(text::prefix_until(t, ',')), u64::MAX as nat) {
        None => Err(ParseError::InvalidNumber),
        Some(p) => match text::suffix_after(t, ',') {
            None => Err(ParseError::MissingField),
            Some(rest) => match text::parse_unsigned(text::trim(text::prefix_until(rest, ',')), u64::MAX as nat) {
                None => Err(ParseError::InvalidNumber),
                Some(q) => Ok((p as u64, q as u64)),
            },
        },
    }
}

/// The text of an order: `<product>,<qty>` in decimal.
pub open spec fn order_text(product: u64, qty: u64) -> Seq<char> {
    text::decimal(product as nat) + seq![','] + text::decimal(qty as nat)
}

impl Order {
    /// The product that is ordered.
    pub closed spec fn product(self) -> u64 {
        self.product_id
    }

    /// The number of units that are ordered.
    pub closed spec fn quantity(self) -> u64 {
        self.qty
    }

    /// Two orders of the same product and quantity are the same order.
    pub proof fn lemma_eq(a: Order, b: Order)
        requires
            a.product() == b.product(),
            a.quantity() == b.quantity(),
        ensures
            a == b,
    {
    }

    pub fn new(product: u64, qty: u64) -> (o: Order)
        ensures
            o.product() == product,
            o.quantity() == qty,
    {
        Order { product_id: product, qty }
    }

    pub fn get_product(&self) -> (p: u64)
        ensures
            p == self.product(),
    {
        self.product_id
    }

    pub fn get_qty(&self) -> (q: u64)
        ensures
            q == self.quantity(),
    {
        self.qty
    }

    /// The order as text: `<product>,<qty>`.
    pub fn to_string(&self) -> (s: String)
        ensures
            s@ == order_text(self.product(), self.quantity()),
    {
        let mut v: Vec<char> = Vec::new();
        text::push_decimal(&mut v, self.product_id as u128);
        v.push(',');
        text::push_decimal(&mut v, self.qty as u128);
        proof {
            assert(v@ =~= order_text(self.product(), self.quantity()));
        }
        text::string_of(&v)
    }

    /// Reads an order written as `<product>,<qty>`, with white space allowed around
    /// the whole text and around each number.
    pub fn from_str(s: &str) -> (r: Result<Order, ParseError>)
        ensures
            match r {
                Ok(o) => parse_order(s@) == Ok::<(u64, u64), ParseError>(
                    (o.product(), o.quantity()),
                ),
                Err(e) => parse_order(s@) == Err::<(u64, u64), ParseError>(e),
            },
    {
        let chars = text::chars_of(s);
        Self::parse_chars(&chars)
    }

    /// `from_str` on a sequence of characters.
    pub fn parse_chars(chars: &Vec<char>) -> (r: Result<Order, ParseError>)
        ensures
            match r {
                Ok(o) => parse_order(chars@) == Ok::<(u64, u64), ParseError>(
                    (o.product(), o.quantity()),
                ),
                Err(e) => parse_order(chars@) == Err::<(u64, u64), ParseError>(e),
            },
    {
        let t = text::trim_chars(chars);
        let (first, rest) = text::split_first(&t, ',');
        let first = text::trim_chars(&first);
        let product = match text::parse_u64(&first) {
            Some(p) => p,
            None => {
                return Err(ParseError::InvalidNumber);
            },
        };
        let rest = match rest {
            Some(r) => r,
            None => {
                return Err(ParseError::MissingField);
            },
        };
        let (second, _) = text::split_first(&rest, ',');
        let second = text::trim_chars(&second);
        let qty = match text::parse_u64(&second) {
            Some(q) => q,
            None => {
                return Err(ParseError::InvalidNumber);
            },
        };
        Ok(Order { product_id: product, qty })
    }
}

proof fn lemma_trim_digits(d: Seq<char>)
    requires
        d.len() > 0,
        text::all_digits(d),
    ensures
        text::trim(d) == d,
        text::trim_start(d) == d,
{
    assert(!text::is_ws(d[0]));
    assert(!text::is_ws(d.last()));
}

proof fn lemma_prefix_until_digits(d: Seq<char>, rest: Seq<char>)
    requires
        text::all_digits(d),
    ensures
        text::prefix_until(d + rest, ',') == (if rest.len() > 0 && rest[0] == ',' {
            d
        } else {
            d + text::prefix_until(rest, ',')
        }),
        text::prefix_until(d, ',') == d,
        text::suffix_after(d + rest, ',') == text::suffix_after(rest, ','),
    decreases d.len(),
{
    if d.len() > 0 {
        let t = d.drop_first();
        assert(text::all_digits(t)) by {
            assert forall|i: int| 0 <= i < t.len() implies text::is_digit(#[trigger] t[i]) by {
                assert(t[i] == d[i + 1]);
            }
        }
        lemma_prefix_until_digits(t, rest);
        assert((d + rest).drop_first() =~= t + rest);
        assert(text::is_digit(d[0]));
        assert(seq![d[0]] + t =~= d);
        assert(seq![d[0]] + (t + text::prefix_until(rest, ',')) =~= d + text::prefix_until(rest, ','));
    } else {
        assert(d + rest =~= rest);
        assert(Seq::<char>::empty() + text::prefix_until(rest, ',') =~= text::prefix_until(rest, ','));
        if rest.len() > 0 && rest[0] == ',' {
            assert(text::prefix_until(rest, ',') =~= Seq::<char>::empty());
        }
    }
}

/// Reading back the text of an order gives the same order.
pub proof fn lemma_order_text_roundtrip(product: u64, qty: u64)
    ensures
        parse_order(order_text(product, qty)) == Ok::<(u64, u64), ParseError>((product, qty)),
{
    let dp = text::decimal(product as nat);
    let dq = text::decimal(qty as nat);
    text::lemma_decimal_digits(product as nat);
    text::lemma_decimal_digits(qty as nat);
    let s = order_text(product, qty);
    let tail = seq![','] + dq;
    assert(s =~= dp + tail);
    assert(s[0] == dp[0]);
    assert(!text::is_ws(s[0]));
    assert(s.last() == dq.last());
    assert(text::is_digit(dq[dq.len() - 1]));
    assert(text::trim_start(s) == s);
    assert(text::trim(s) == s);
    lemma_prefix_until_digits(dp, tail);
    assert(tail.drop_first() =~= dq);
    assert(text::suffix_after(tail, ',') == Some(dq));
    lemma_prefix_until_digits(dq, Seq::<char>::empty());
    lemma_trim_digits(dp);
    lemma_trim_digits(dq);
    text::lemma_parse_decimal(product as nat, u64::MAX as nat);
    text::lemma_parse_decimal(qty as nat, u64::MAX as nat);
}

/// Writing an order and reading the text back gives the same order.
pub proof fn lemma_order_roundtrip(o: Order)
    ensures
        parse_order(order_text(o.product(), o.quantity())) == Ok::<(u64, u64), ParseError>(
            (o.product(), o.quantity()),
        ),
{
    lemma_order_text_roundtrip(o.product(), o.quantity());
}

/// The orders of a sequence of lines, one order per line, or the error of the first
/// line that is not an order.
pub open spec fn parse_order_lines(lines: Seq<Seq<char>>) -> Result<Seq<(u64, u64)>, ParseError>
    decreases lines.len(),
{
    if lines.len() == 0 {
        Ok(Seq::empty())
    } else {
        match parse_order(lines[0]) {
            Err(e) => Err(e),
            Ok(o) => match parse_order_lines(lines.drop_first()) {
                Err(e) => Err(e),
                Ok(rest) => Ok(seq![o] + rest),
            },
        }
    }
}

/// The product and quantity of each order.
pub open spec fn order_pairs(orders: Seq<Order>) -> Seq<(u64, u64)> {
    orders.map_values(|o: Order| (o.product(), o.quantity()))
}

proof fn lemma_parse_lines_prefix(lines: Seq<Seq<char>>, i: int)
    requires
        0 <= i < lines.len(),
        forall|k: int| 0 <= k < i ==> (#[trigger] parse_order(lines[k])) is Ok,
    ensures
        parse_order(lines[i]) is Err ==> parse_order_lines(lines) == Err::<Seq<(u64, u64)>, ParseError>(
            parse_order(lines[i])->Err_0,
        ),
    decreases i,
{
    if i > 0 {
        let t = lines.drop_first();
        assert forall|k: int| 0 <= k < i - 1 implies (#[trigger] parse_order(t[k])) is Ok by {
            assert(t[k] == lines[k + 1]);
        }
        lemma_parse_lines_prefix(t, i - 1);
        assert(parse_order(lines[0]) is Ok);
    }
}

proof fn lemma_parse_lines_all(lines: Seq<Seq<char>>)
    requires
        forall|k: int| 0 <= k < lines.len() ==> (#[trigger] parse_order(lines[k])) is Ok,
    ensures
        parse_order_lines(lines) == Ok::<Seq<(u64, u64)>, ParseError>(
            Seq::new(lines.len(), |k: int| parse_order(lines[k])->Ok_0),
        ),
    decreases lines.len(),
{
    if lines.len() > 0 {
        let t = lines.drop_first();
        assert forall|k: int| 0 <= k < t.len() implies (#[trigger] parse_order(t[k])) is Ok by {
            assert(t[k] == lines[k + 1]);
        }
        lemma_parse_lines_all(t);
        assert(seq![parse_order(lines[0])->Ok_0] + Seq::new(t.len(), |k: int| parse_order(t[k])->Ok_0)
            =~= Seq::new(lines.len(), |k: int| parse_order(lines[k])->Ok_0));
    } else {
        assert(Seq::new(0, |k: int| parse_order(lines[k])->Ok_0) =~= Seq::<(u64, u64)>::empty());
    }
}

/// The text of each line.
pub open spec fn line_texts(lines: Seq<String>) -> Seq<Seq<char>> {
    lines.map_values(|l: String| l@)
}

/// Reads one order from each line, as the original reads an orders file; stops at the
/// first line that is not an order and gives its error.
pub fn parse_orders(lines: &Vec<String>) -> (r: Result<Vec<Order>, ParseError>)
    ensures
        match r {
            Ok(v) => parse_order_lines(line_texts(lines@)) == Ok::<Seq<(u64, u64)>, ParseError>(
                order_pairs(v@),
            ),
            Err(e) => parse_order_lines(line_texts(lines@)) == Err::<Seq<(u64, u64)>, ParseError>(e),
        },
{
    let ghost texts = line_texts(lines@);
    let mut orders: Vec<Order> = Vec::new();
    let mut i: usize = 0;
    while i < lines.len()
        invariant
            i <= lines@.len(),
            texts == line_texts(lines@),
            orders@.len() == i,
            forall|k: int| 0 <= k < i ==> (#[trigger] parse_order(texts[k])) == Ok::<(u64, u64), ParseError>(
                (orders@[k].product(), orders@[k].quantity()),
            ),
        decreases lines@.len() - i,
    {
        let o = Order::from_str(lines[i].as_str());
        match o {
            Ok(o) => {
                orders.push(o);
            },
            Err(e) => {
                proof {
                    lemma_parse_lines_prefix(texts, i as int);
                }
                return Err(e);
            },
        }
        i = i + 1;
    }
    proof {
        lemma_parse_lines_all(texts);
        assert(Seq::new(texts.len(), |k: int| parse_order(texts[k])->Ok_0) =~= order_pairs(orders@));
    }
    Ok(orders)
}

} // verus!
