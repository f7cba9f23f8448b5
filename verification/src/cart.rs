//! A shopping cart, its orders, and checkout.
use vstd::prelude::*;

use crate::text::{push_str, string_of};

verus! {

/// A line item in the shopping cart.
#[derive(Clone, Debug, PartialEq, Eq)]
pub struct CartItem {
    /// Human-readable item name.
    pub name: String,
    /// Price per unit in cents.
    pub price_cents: u32,
    /// Selected quantity.
    pub quantity: u32,
}

/// The value of a line item.
pub struct CartItemModel {
    pub name: Seq<char>,
    pub price_cents: u32,
    pub quantity: u32,
}

impl View for CartItem {
    type V = CartItemModel;

    open spec fn view(&self) -> CartItemModel {
        CartItemModel { name: self.name@, price_cents: self.price_cents, quantity: self.quantity }
    }
}

/// The price of a line: unit price times quantity.
pub open spec fn line_total(item: CartItemModel) -> int {
    item.price_cents * item.quantity
}

/// The sum of the line totals.
pub open spec fn sum_totals(items: Seq<CartItemModel>) -> int
    decreases items.len(),
{
    if items.len() == 0 {
        0
    } else {
        sum_totals(items.drop_last()) + line_total(items.last())
    }
}

/// The values of a list of line items.
pub open spec fn items_view(items: Seq<CartItem>) -> Seq<CartItemModel> {
    Seq::new(items.len(), |i: int| items[i]@)
}

/// Whether every line total, and their sum, fit in a `u32`.
pub open spec fn totals_fit(items: Seq<CartItemModel>) -> bool {
    &&& forall|i: int| 0 <= i < items.len() ==> line_total(#[trigger] items[i]) <= u32::MAX
    &&& sum_totals(items) <= u32::MAX
}

proof fn lemma_sum_totals_prefix(items: Seq<CartItemModel>, k: int)
    requires
        0 <= k <= items.len(),
    ensures
        sum_totals(items.take(k)) <= sum_totals(items),
    decreases items.len() - k,
{
    if k < items.len() {
        lemma_sum_totals_prefix(items, k + 1);
        assert(items.take(k + 1).drop_last() =~= items.take(k));
        assert(line_total(items.take(k + 1).last()) >= 0) by (nonlinear_arith)
            requires
                items.take(k + 1).last().price_cents >= 0,
                items.take(k + 1).last().quantity >= 0,
        ;
    } else {
        assert(items.take(k) =~= items);
    }
}

impl CartItem {
    /// Create a new cart item.
    pub fn new(name: &str, price_cents: u32, quantity: u32) -> (r: Self)
        ensures
            r@ == (CartItemModel { name: name@, price_cents, quantity }),
    {
        CartItem { name: name.to_owned(), price_cents, quantity }
    }

    /// The total price of this line item: unit price times quantity.
    pub fn total_cents(&self) -> (r: u32)
        requires
            line_total(self@) <= u32::MAX,
        ensures
            r == line_total(self@),
    {
        self.price_cents * self.quantity
    }
}

fn copy_item(item: &CartItem) -> (r: CartItem)
    ensures
        r@ == item@,
{
    CartItem { name: item.name.clone(), price_cents: item.price_cents, quantity: item.quantity }
}

/// The total of a list of line items.
fn items_total(items: &Vec<CartItem>) -> (r: u32)
    requires
        totals_fit(items_view(items@)),
    ensures
        r == sum_totals(items_view(items@)),
{
    let ghost iv = items_view(items@);
    let mut total: u32 = 0;
    let mut i: usize = 0;
    assert(iv.take(0) =~= seq![]);
    while i < items.len()
        invariant
            iv == items_view(items@),
            totals_fit(iv),
            i <= iv.len(),
            total == sum_totals(iv.take(i as int)),
        decreases iv.len() - i,
    {
        assert(iv.take(i + 1).drop_last() =~= iv.take(i as int));
        assert(iv.take(i + 1).last() == iv[i as int]);
        proof {
            lemma_sum_totals_prefix(iv, i + 1);
        }
        let line = items[i].total_cents();
        total = total + line;
        i = i + 1;
    }
    assert(iv.take(i as int) =~= iv);
    total
}

/// A shopping cart.
#[derive(Clone, Debug, PartialEq, Eq)]
pub struct Cart {
    /// Items currently in the cart.
    pub items: Vec<CartItem>,
}

impl Default for Cart {
    /// An empty cart.
    fn default() -> (r: Self)
        ensures
            r.items@.len() == 0,
    {
        Cart::new()
    }
}

impl Cart {
    /// Create an empty cart.
    pub fn new() -> (r: Self)
        ensures
            r.items@.len() == 0,
    {
        Cart { items: Vec::new() }
    }

    /// Add an item at the end of the cart.
    pub fn add_item(&mut self, item: CartItem)
        ensures
            final(self).items@ == old(self).items@.push(item),
    {
        self.items.push(item);
    }

    /// The total cart value in cents: the sum of the line totals.
    pub fn total_cents(&self) -> (r: u32)
        requires
            totals_fit(items_view(self.items@)),
        ensures
            r == sum_totals(items_view(self.items@)),
    {
        items_total(&self.items)
    }

    /// Whether the cart holds no item.
    pub fn is_empty(&self) -> (r: bool)
        ensures
            r == (self.items@.len() == 0),
    {
        self.items.len() == 0
    }
}

/// An order created from checkout.
#[derive(Clone, Debug, PartialEq, Eq)]
pub struct Order {
    /// Items included in the order.
    pub items: Vec<CartItem>,
    /// Total order value in cents.
    pub total_cents: u32,
}

impl Order {
    /// An order of the items, totalled.
    pub fn from_items(items: Vec<CartItem>) -> (r: Self)
        requires
            totals_fit(items_view(items@)),
        ensures
            r.items@ == items@,
            r.total_cents == sum_totals(items_view(items@)),
    {
        let total_cents = items_total(&items);
        Order { items, total_cents }
    }
}

/// The result of checking out a cart.
#[derive(Clone, Debug, PartialEq, Eq)]
pub struct CheckoutResult {
    /// The newly created order.
    pub order: Order,
    /// The emptied cart after checkout.
    pub cart: Cart,
}

/// A greeting for `name`.
pub fn greeting(name: &str) -> (r: String)
    ensures
        r@ == "Hello, "@ + name@ + "!"@,
{
    let mut cs: Vec<char> = Vec::new();
    push_str(&mut cs, "Hello, ");
    push_str(&mut cs, name);
    push_str(&mut cs, "!");
    string_of(cs.as_slice())
}

/// Creates an order from the provided items and an empty cart; the items
/// given are left as they were.
pub fn checkout_cart(items: &[CartItem]) -> (r: CheckoutResult)
    requires
        totals_fit(items_view(items@)),
    ensures
        items_view(r.order.items@) == items_view(items@),
        r.order.total_cents == sum_totals(items_view(items@)),
        r.cart.items@.len() == 0,
{
    let mut copies: Vec<CartItem> = Vec::new();
    let mut i: usize = 0;
    while i < items.len()
        invariant
            i <= items@.len(),
            copies@.len() == i,
            forall|j: int| 0 <= j < i ==> (#[trigger] copies@[j])@ == items@[j]@,
        decreases items@.len() - i,
    {
        copies.push(copy_item(&items[i]));
        i = i + 1;
    }
    assert(items_view(copies@) =~= items_view(items@));
    CheckoutResult { order: Order::from_items(copies), cart: Cart::new() }
}

} // verus!
