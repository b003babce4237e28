use cellscript::ast::{
    ActionDef, BindingPattern, CreateExpr, Expr, FunctionDef, Item, LockDef, Module, Param, Span, StateMachineDef,
    StateMachineTarget, Stmt, Transition, Type,
};
use cellscript::lifecycle::check;

fn machine(base: &str, transitions: &[(&str, &str)]) -> Item {
    Item::StateMachine(StateMachineDef {
        target: StateMachineTarget { base: base.to_string(), field: "state".to_string(), span: Span::default() },
        transitions: transitions.iter().map(|(from, to)| Transition { from: from.to_string(), to: to.to_string() }).collect(),
        span: Span::default(),
    })
}

fn create(ty: &str, fields: Vec<(&str, Expr)>) -> Expr {
    Expr::Create(CreateExpr {
        ty: ty.to_string(),
        fields: fields.into_iter().map(|(name, value)| (name.to_string(), value)).collect(),
        lock: None,
        span: Span::default(),
    })
}

fn ident(name: &str) -> Expr {
    Expr::Identifier(name.to_string())
}

fn action(params: Vec<Param>, body: Vec<Stmt>) -> Item {
    Item::Action(ActionDef { name: "act".to_string(), params, body })
}

fn order_param(name: &str) -> Param {
    Param { name: name.to_string(), ty: Type::Named("Order".to_string()) }
}

fn module(items: Vec<Item>) -> Module {
    Module { name: "orders".to_string(), items }
}

fn order_machine() -> Item {
    machine("Order", &[("Order::Open", "Order::Filled"), ("Order::Filled", "Order::Closed")])
}

fn error_of(m: &Module) -> String {
    check(m).unwrap_err().message
}

#[test]
fn a_state_machine_needs_two_states() {
    let m = module(vec![machine("Order", &[("Open", "Order::Open")])]);
    assert_eq!(error_of(&m), "state machine must mention at least two states");
    assert!(check(&module(vec![order_machine()])).is_ok());
}

#[test]
fn initial_creates_name_a_declared_state() {
    let by_name = module(vec![order_machine(), action(vec![], vec![Stmt::Expr(create("Order", vec![("state", ident("Order::Open"))]))])]);
    assert!(check(&by_name).is_ok());
    let by_index = module(vec![order_machine(), action(vec![], vec![Stmt::Expr(create("Order", vec![("state", Expr::Integer(2))]))])]);
    assert!(check(&by_index).is_ok());
    let unknown =
        module(vec![order_machine(), action(vec![], vec![Stmt::Expr(create("Order", vec![("state", ident("Order::Lost"))]))])]);
    assert_eq!(error_of(&unknown), "initial create of state-machine type 'Order' must use a statically known declared state");
}

#[test]
fn creates_must_set_the_state_field() {
    let m = module(vec![order_machine(), action(vec![], vec![Stmt::Expr(create("Order", vec![("amount", Expr::Integer(1))]))])]);
    assert_eq!(error_of(&m), "create of state-machine type 'Order' must set its state field");
    // types without a state machine are not constrained
    let plain = module(vec![order_machine(), action(vec![], vec![Stmt::Expr(create("Token", vec![]))])]);
    assert!(check(&plain).is_ok());
}

#[test]
fn state_indices_stay_within_the_declared_states() {
    let m = module(vec![order_machine(), action(vec![], vec![Stmt::Expr(create("Order", vec![("state", Expr::Integer(3))]))])]);
    assert_eq!(error_of(&m), "state-machine state index 3 is out of range for 'Order' with 3 states");
}

#[test]
fn integer_aliases_count_as_static_states() {
    let alias = |value: u64| Stmt::Let { pattern: BindingPattern::Name("s".to_string()), ty: None, value: Expr::Integer(value) };
    let ok = module(vec![order_machine(), action(vec![], vec![alias(1), Stmt::Expr(create("Order", vec![("state", ident("s"))]))])]);
    assert!(check(&ok).is_ok());
    let too_far =
        module(vec![order_machine(), action(vec![], vec![alias(7), Stmt::Expr(create("Order", vec![("state", ident("s"))]))])]);
    assert_eq!(error_of(&too_far), "state-machine state index 7 is out of range for 'Order' with 3 states");
}

#[test]
fn updates_of_a_consumed_cell_may_compute_the_state() {
    let body = vec![
        Stmt::Expr(Expr::Consume(Box::new(ident("order")))),
        Stmt::Expr(create("Order", vec![("state", ident("next_state"))])),
    ];
    assert!(check(&module(vec![order_machine(), action(vec![order_param("order")], body)])).is_ok());
    // without the consume, the same create is an initial one
    let fresh = vec![Stmt::Expr(create("Order", vec![("state", ident("next_state"))]))];
    assert_eq!(
        error_of(&module(vec![order_machine(), action(vec![order_param("order")], fresh)])),
        "initial create of state-machine type 'Order' must use a statically known declared state"
    );
}

#[test]
fn functions_and_locks_are_checked_too() {
    let bad = || vec![Stmt::Return(Some(create("Order", vec![])))];
    let function = Item::Function(FunctionDef { name: "f".to_string(), params: vec![], body: bad() });
    assert_eq!(error_of(&module(vec![order_machine(), function])), "create of state-machine type 'Order' must set its state field");
    let lock = Item::Lock(LockDef { name: "l".to_string(), params: vec![], body: bad() });
    assert_eq!(error_of(&module(vec![order_machine(), lock])), "create of state-machine type 'Order' must set its state field");
    // creates nested in conditions are found
    let nested = vec![Stmt::If {
        condition: Expr::Bool(true),
        then_branch: vec![Stmt::Expr(Expr::Tuple(vec![create("Order", vec![("state", Expr::Integer(9))])]))],
        else_branch: None,
    }];
    assert_eq!(
        error_of(&module(vec![order_machine(), action(vec![], nested)])),
        "state-machine state index 9 is out of range for 'Order' with 3 states"
    );
}

#[test]
fn lifecycle_errors_point_at_their_source() {
    let mut bad = StateMachineDef {
        target: StateMachineTarget { base: "Order".to_string(), field: "state".to_string(), span: Span::default() },
        transitions: vec![Transition { from: "Open".to_string(), to: "Open".to_string() }],
        span: Span { start: 3, end: 9 },
    };
    bad.span = Span { start: 3, end: 9 };
    let err = check(&module(vec![Item::StateMachine(bad)])).unwrap_err();
    assert_eq!(err.span, Span { start: 3, end: 9 });
    let missing = Expr::Create(CreateExpr { ty: "Order".to_string(), fields: Vec::new(), lock: None, span: Span { start: 20, end: 31 } });
    let err = check(&module(vec![order_machine(), action(vec![], vec![Stmt::Expr(missing)])])).unwrap_err();
    assert_eq!(err.message, "create of state-machine type 'Order' must set its state field");
    assert_eq!(err.span, Span { start: 20, end: 31 });
}
