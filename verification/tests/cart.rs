use ferriskey_sdk::{checkout_cart, greeting, Cart, CartItem, Order};

#[test]
fn greeting_builds_message() {
    assert_eq!(greeting("Rust"), "Hello, Rust!");
}

#[test]
fn checkout_cart_creates_an_order_and_clears_the_cart() {
    let result = checkout_cart(&[CartItem::new("Tea", 450, 2), CartItem::new("Cake", 350, 1)]);

    assert_eq!(result.order.total_cents, 1250);
    assert!(result.cart.items.is_empty());
}

#[test]
fn cart_item_total_calculation() {
    let item = CartItem::new("Widget", 1000, 3);
    assert_eq!(item.total_cents(), 3000);
}

#[test]
fn greeting_of_empty_name() {
    assert_eq!(greeting(""), "Hello, !");
}

#[test]
fn checkout_keeps_items_in_order() {
    let items = vec![CartItem::new("Tea", 450, 2), CartItem::new("Cake", 350, 1), CartItem::new("Jam", 0, 9)];
    let result = checkout_cart(&items);
    assert_eq!(result.order.items, items);
    assert_eq!(result.order.total_cents, 900 + 350);
    assert!(result.cart.is_empty());
}

#[test]
fn checkout_of_no_items() {
    let result = checkout_cart(&[]);
    assert!(result.order.items.is_empty());
    assert_eq!(result.order.total_cents, 0);
}

#[test]
fn cart_accumulates_items_and_totals() {
    let mut cart = Cart::new();
    assert!(cart.is_empty());
    assert_eq!(cart.total_cents(), 0);
    cart.add_item(CartItem::new("Tea", 450, 2));
    cart.add_item(CartItem::new("Cake", 350, 1));
    assert!(!cart.is_empty());
    assert_eq!(cart.items.len(), 2);
    assert_eq!(cart.items[1].name, "Cake");
    assert_eq!(cart.total_cents(), 1250);
    assert_eq!(Cart::default().items.len(), 0);
}

#[test]
fn order_from_items_totals_lines() {
    let order = Order::from_items(vec![CartItem::new("A", 7, 3), CartItem::new("B", 5, 0)]);
    assert_eq!(order.total_cents, 21);
    assert_eq!(order.items.len(), 2);
}
