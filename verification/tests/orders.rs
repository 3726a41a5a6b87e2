use icecream_robots::flavor_id::FlavorID;
use icecream_robots::order::{Order, Portion, CUARTO, KILO, MEDIO};

fn grams(order: &Order) -> u32 {
    order.get_flavors().iter().map(|(_, g)| *g).sum()
}

#[test]
fn test_new_cuarto_failure() {
    let flavors = vec![FlavorID::Chocolate, FlavorID::Vanilla, FlavorID::Chocolate];
    let order = Order::new_cuarto(flavors);
    assert_eq!(order, Err("A cuarto can have up to 2 flavors.".to_string()));
}

#[test]
fn test_new_medio_failure() {
    let flavors = vec![
        FlavorID::Chocolate,
        FlavorID::Mint,
        FlavorID::Strawberry,
        FlavorID::DulceDeLeche,
    ];
    let order = Order::new_medio(flavors);
    assert_eq!(order, Err("A medio can have up to 3 flavors".to_string()));
}

#[test]
fn test_new_kilo_failure() {
    let flavors = vec![
        FlavorID::Chocolate,
        FlavorID::Vanilla,
        FlavorID::Mint,
        FlavorID::DulceDeLeche,
        FlavorID::Lemon,
    ];
    let order = Order::new_kilo(flavors);
    assert_eq!(order, Err("A kilo can have up to 4 flavors.".to_string()));
}

#[test]
fn portion_sizes() {
    assert_eq!(KILO, 1000);
    assert_eq!(MEDIO, 500);
    assert_eq!(CUARTO, 250);
}

#[test]
fn cucurucho_is_a_quarter_of_one_flavor() {
    let order = Order::new_cucurucho(FlavorID::Mint);
    assert_eq!(order, Order::Cucurucho((FlavorID::Mint, 250)));
    assert_eq!(order.get_flavors(), vec![(FlavorID::Mint, 250)]);
    assert_eq!(order.portion(), Portion::Cucurucho);
}

#[test]
fn cuarto_splits_evenly_in_the_order_given() {
    let order = Order::new_cuarto(vec![FlavorID::Lemon, FlavorID::Mint]).unwrap();
    assert_eq!(order, Order::Cuarto(vec![(FlavorID::Lemon, 125), (FlavorID::Mint, 125)]));
    assert_eq!(grams(&order), 250);
}

#[test]
fn medio_adds_up_to_half_a_kilo() {
    let order =
        Order::new_medio(vec![FlavorID::Chocolate, FlavorID::Vanilla, FlavorID::Mint]).unwrap();
    assert_eq!(
        order,
        Order::Medio(vec![
            (FlavorID::Vanilla, 167),
            (FlavorID::Mint, 167),
            (FlavorID::Chocolate, 166)
        ])
    );
    assert_eq!(grams(&order), 500);
    assert_eq!(order.portion(), Portion::Medio);
}

#[test]
fn kilo_is_four_quarters() {
    let order = Order::new_kilo(vec![
        FlavorID::Chocolate,
        FlavorID::Vanilla,
        FlavorID::Mint,
        FlavorID::Pistachio,
    ])
    .unwrap();
    assert_eq!(
        order.get_flavors(),
        vec![
            (FlavorID::Chocolate, 250),
            (FlavorID::Vanilla, 250),
            (FlavorID::Mint, 250),
            (FlavorID::Pistachio, 250)
        ]
    );
    assert_eq!(grams(&order), 1000);
}

#[test]
fn short_inputs_are_refused_with_a_message() {
    assert_eq!(Order::new_cuarto(vec![]), Err("A cuarto needs 2 flavors.".to_string()));
    assert_eq!(
        Order::new_cuarto(vec![FlavorID::Mint]),
        Err("A cuarto needs 2 flavors.".to_string())
    );
    assert_eq!(
        Order::new_medio(vec![FlavorID::Mint, FlavorID::Lemon]),
        Err("A medio needs 3 flavors.".to_string())
    );
    assert_eq!(
        Order::new_kilo(vec![FlavorID::Mint, FlavorID::Lemon, FlavorID::Vanilla]),
        Err("A kilo needs 4 flavors.".to_string())
    );
}

#[test]
fn a_copy_of_an_order_is_the_order() {
    let order = Order::new_cuarto(vec![FlavorID::Lemon, FlavorID::Mint]).unwrap();
    assert_eq!(order.clone(), order);
    let cone = Order::new_cucurucho(FlavorID::Lemon);
    assert_eq!(cone.clone(), cone);
}
