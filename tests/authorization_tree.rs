use cw_auth_middleware::allow_list::AllowList;
use cw_auth_middleware::combinator::{decide_all, decide_any, AndContract, OrContract};
use cw_auth_middleware::error::ContractError;
use cw_auth_middleware::manager::AuthorizationMiddlewareContract;
use cw_auth_middleware::message_filter::{Kind, MessageFilter};
use cw_auth_middleware::msg::InstantiateMsg;
use cw_auth_middleware::network::{ExecuteMsg, Module, Network};
use cw_auth_middleware::value::{deep_partial_match, Value};

const CORE: &str = "core";
const MANAGER: &str = "manager";

fn st(text: &str) -> String {
    text.to_string()
}

fn s(text: &str) -> Value {
    Value::String(text.to_string())
}

fn obj(entries: Vec<(&str, Value)>) -> Value {
    Value::Object(entries.into_iter().map(|(k, v)| (k.to_string(), v)).collect())
}

fn empty() -> Value {
    obj(vec![])
}

fn bank_send(to: &str, amount: u128, denom: &str) -> Value {
    obj(vec![(
        "bank",
        obj(vec![(
            "send",
            obj(vec![
                ("to_address", s(to)),
                (
                    "amount",
                    Value::Array(vec![obj(vec![("denom", s(denom)), ("amount", Value::U128(amount))])]),
                ),
            ]),
        )]),
    )])
}

fn authorized(net: &Network, addr: &str, ops: &Vec<Value>, sender: &str) -> bool {
    net.query_authorizations(&st(addr), ops, &st(sender)).authorized
}

fn execute(
    manager: &AuthorizationMiddlewareContract,
    net: &Network,
    ops: Vec<Value>,
    sender: &str,
) -> bool {
    manager.execute_proposal(net, &st(MANAGER), &ops, &st(sender)).is_ok()
}

fn allow(net: &mut Network, list: &str, caller: &str, addr: &str) -> Result<(), ContractError> {
    net.execute(&st(caller), &st(list), ExecuteMsg::Allow { addr: st(addr) }).map(|_| ())
}

fn add_child(net: &mut Network, parent: &str, caller: &str, child: &str) -> Result<(), ContractError> {
    net.execute(&st(caller), &st(parent), ExecuteMsg::AddChild { addr: st(child) }).map(|_| ())
}

fn remove_child(net: &mut Network, parent: &str, caller: &str, child: &str) -> Result<(), ContractError> {
    net.execute(&st(caller), &st(parent), ExecuteMsg::RemoveChild { addr: st(child) }).map(|_| ())
}

#[test]
fn test_direct_authorizations() {
    let mut net = Network::new();
    let mut manager = AuthorizationMiddlewareContract::instantiate(st(CORE), InstantiateMsg {});
    let msg = bank_send("other_addr", 1234, "juno");

    // No authorizations configured: executing fails
    assert!(!execute(&manager, &net, vec![bank_send("other_addr", 1234, "juno")], "Evil sender"));

    // A simple allow list
    net.register(st("whitelist"), Module::AllowList(AllowList::new(st(CORE))));

    // Only the dao can add to the allow list
    assert!(allow(&mut net, "whitelist", "Anyone", "whitelisted_addr").is_err());
    allow(&mut net, "whitelist", CORE, "whitelisted_addr").unwrap();

    // An all-of combinator
    net.register(
        st("and"),
        Module::AllOf(AndContract::instantiate(st(CORE), vec![st("whitelist")])),
    );
    add_child(&mut net, "and", CORE, "whitelist").unwrap();

    // An any-of combinator as the entry point
    net.register(st("entrypoint"), Module::AnyOf(OrContract::instantiate(st(CORE), vec![])));
    manager.set_authorization(&st(CORE), st("entrypoint")).unwrap();
    add_child(&mut net, "entrypoint", CORE, "and").unwrap();

    // Someone who is not allowed
    assert!(!execute(&manager, &net, vec![bank_send("other_addr", 1234, "juno")], "RaNdO"));

    // Someone who is allowed
    assert!(execute(&manager, &net, vec![msg], "whitelisted_addr"));

    // A filter that allows some message types
    net.register(st("filter"), Module::MessageFilter(MessageFilter::new(st(CORE), Kind::Allow {})));
    add_child(&mut net, "and", CORE, "filter").unwrap();

    // An employee may send only one token
    let employee_pattern = obj(vec![(
        "bank",
        obj(vec![(
            "send",
            obj(vec![
                ("to_address", empty()),
                ("amount", Value::Array(vec![obj(vec![("denom", s("juno")), ("amount", empty())])])),
            ]),
        )]),
    )]);
    net.execute(
        &st(CORE),
        &st("filter"),
        ExecuteMsg::AddAuthorization {
            addr: st("employee"),
            msg: st(r#"{"bank": {"send": {"to_address": {}, "amount": [{"denom": "juno", "amount": {}}]}}}"#),
            pattern: employee_pattern,
        },
    )
    .unwrap();

    // Someone without bank permissions
    assert!(!execute(&manager, &net, vec![bank_send("other_addr", 1234, "juno")], "whitelisted_addr"));

    // The employee is not on the allow list yet
    assert!(!execute(&manager, &net, vec![bank_send("other_addr", 1234, "juno")], "employee"));

    allow(&mut net, "whitelist", CORE, "employee").unwrap();
    assert!(execute(&manager, &net, vec![bank_send("other_addr", 1234, "juno")], "employee"));

    // Coins the filter does not allow
    assert!(!execute(&manager, &net, vec![bank_send("other_addr", 1, "other")], "employee"));
}

#[test]
fn any_of_over_allow_list_end_to_end() {
    let mut net = Network::new();
    let mut list = AllowList::new(st(CORE));
    list.allow(&st(CORE), st("A")).unwrap();
    net.register(st("M"), Module::AllowList(list));
    net.register(st("C"), Module::AnyOf(OrContract::instantiate(st(CORE), vec![st("M")])));
    let mut manager = AuthorizationMiddlewareContract::new(st(CORE));
    manager.add_authorization(&st(CORE), st("C")).unwrap();

    let ops = vec![bank_send("x", 1, "juno")];
    assert!(manager.is_authorized(&net, &ops, &st("A")));
    assert!(!manager.is_authorized(&net, &ops, &st("B")));

    remove_child(&mut net, "C", CORE, "M").unwrap();
    assert!(!manager.is_authorized(&net, &ops, &st("A")));
}

#[test]
fn childless_combinators() {
    let mut net = Network::new();
    net.register(st("all"), Module::AllOf(AndContract::new(st(CORE))));
    net.register(st("any"), Module::AnyOf(OrContract::new(st(CORE))));
    let ops = vec![bank_send("x", 1, "juno")];
    assert!(authorized(&net, "all", &ops, "anyone"));
    assert!(!authorized(&net, "any", &ops, "anyone"));
    assert!(decide_all(&vec![]));
    assert!(!decide_any(&vec![]));
}

#[test]
fn unconfigured_manager_denies() {
    let mut net = Network::new();
    net.register(st("all"), Module::AllOf(AndContract::new(st(CORE))));
    let manager = AuthorizationMiddlewareContract::new(st(CORE));
    let ops = vec![bank_send("x", 1, "juno")];
    assert!(!manager.is_authorized(&net, &ops, &st("anyone")));
    assert!(!manager.is_authorized(&net, &vec![], &st(CORE)));
    let r = manager.execute_proposal(&net, &st(MANAGER), &ops, &st("anyone"));
    assert!(matches!(r, Err(ContractError::Unauthorized { .. })));
}

#[test]
fn failed_children_count_as_denials() {
    let mut net = Network::new();
    net.register(st("yes"), Module::AllOf(AndContract::new(st(CORE))));
    net.register(
        st("all"),
        Module::AllOf(AndContract::instantiate(st(CORE), vec![st("yes"), st("missing")])),
    );
    net.register(
        st("any"),
        Module::AnyOf(OrContract::instantiate(st(CORE), vec![st("missing"), st("yes")])),
    );
    let ops = vec![];
    assert!(!authorized(&net, "all", &ops, "a"));
    assert!(authorized(&net, "any", &ops, "a"));
    assert!(!authorized(&net, "missing", &ops, "a"));
    assert_eq!(decide_all(&vec![Some(true), None]), false);
    assert_eq!(decide_any(&vec![None, Some(false), Some(true)]), true);
    assert_eq!(decide_any(&vec![None, Some(false)]), false);
}

#[test]
fn a_cycle_of_modules_denies() {
    let mut net = Network::new();
    net.register(st("a"), Module::AnyOf(OrContract::instantiate(st(CORE), vec![st("b")])));
    net.register(st("b"), Module::AnyOf(OrContract::instantiate(st(CORE), vec![st("a")])));
    assert!(!authorized(&net, "a", &vec![], "x"));
    let updates = net.propagate(&st(CORE), &vec![st("a")], &vec![], &st("x"));
    // the updates stop where the depth runs out
    assert!(updates.len() > 1);
    assert!(!updates[updates.len() - 1].accepted);
}

#[test]
fn execute_rejects_an_empty_batch() {
    let mut net = Network::new();
    net.register(st("all"), Module::AllOf(AndContract::new(st(CORE))));
    let mut manager = AuthorizationMiddlewareContract::new(st(CORE));
    manager.add_authorization(&st(CORE), st("all")).unwrap();
    let r = manager.execute_proposal(&net, &st(MANAGER), &vec![], &st("x"));
    assert!(matches!(r, Err(ContractError::InvalidRequest {})));
}

#[test]
fn approved_execution_propagates_best_effort() {
    let mut net = Network::new();
    let mut list = AllowList::new(st(CORE));
    list.allow(&st(CORE), st("A")).unwrap();
    net.register(st("list"), Module::AllowList(list));
    // the root is administered by the manager, so it takes the manager's update
    net.register(
        st("root"),
        Module::AnyOf(OrContract::instantiate(st(MANAGER), vec![st("list"), st("gone")])),
    );
    let mut manager = AuthorizationMiddlewareContract::new(st(CORE));
    manager.add_authorization(&st(CORE), st("root")).unwrap();

    let ops = vec![bank_send("x", 1, "juno")];
    let execution = manager.execute_proposal(&net, &st(MANAGER), &ops, &st("A")).unwrap();
    assert_eq!(execution.dao, CORE);
    let n = &execution.notifications;
    assert_eq!(n.len(), 3);
    assert_eq!((n[0].from.as_str(), n[0].to.as_str(), n[0].accepted), (MANAGER, "root", true));
    // the allow list is administered by CORE: the root's update is refused, and ignored
    assert_eq!((n[1].from.as_str(), n[1].to.as_str(), n[1].accepted), ("root", "list", false));
    // a module that is not there cannot take it either
    assert_eq!((n[2].from.as_str(), n[2].to.as_str(), n[2].accepted), ("root", "gone", false));
    // each update carries the approved batch and its sender
    for u in n.iter() {
        assert_eq!(u.sender, "A");
        assert_eq!(u.msgs.len(), 1);
        assert!(deep_partial_match(&u.msgs[0], &bank_send("x", 1, "juno")));
    }

    // a denied batch sends nothing
    let r = manager.execute_proposal(&net, &st(MANAGER), &ops, &st("B"));
    assert!(matches!(r, Err(ContractError::Unauthorized { .. })));
}

#[test]
fn update_state_checks_the_caller() {
    let mut net = Network::new();
    net.register(st("leaf"), Module::AllowList(AllowList::new(st(CORE))));
    net.register(
        st("node"),
        Module::AnyOf(OrContract::instantiate(st(CORE), vec![st("leaf"), st("gone")])),
    );
    let r = net.update_state(&st("stranger"), &st("node"), &vec![], &st("sender"));
    assert!(matches!(r, Err(ContractError::Unauthorized { .. })));
    let r = net.update_state(&st("x"), &st("nowhere"), &vec![], &st("x"));
    assert!(matches!(r, Err(ContractError::NotFound {})));

    // the sender itself may ask; the children take it from the node only if it owns them
    let ops = vec![bank_send("y", 3, "juno")];
    let updates = net.update_state(&st("sender"), &st("node"), &ops, &st("sender")).unwrap();
    assert_eq!(updates.len(), 2);
    // every update carries the operations and the sender
    for u in updates.iter() {
        assert_eq!(u.sender, "sender");
        assert_eq!(u.msgs.len(), 1);
        assert!(deep_partial_match(&u.msgs[0], &bank_send("y", 3, "juno")));
        assert!(deep_partial_match(&bank_send("y", 3, "juno"), &u.msgs[0]));
    }
    assert!(!updates[0].accepted);
    assert!(!updates[1].accepted);

    // the owner may ask on behalf of someone else
    let updates = net.update_state(&st(CORE), &st("node"), &ops, &st("sender")).unwrap();
    assert_eq!(updates.len(), 2);
}

#[test]
fn manager_administration() {
    let mut manager = AuthorizationMiddlewareContract::new(st(CORE));
    assert!(matches!(
        manager.add_authorization(&st("x"), st("a")),
        Err(ContractError::Unauthorized { .. })
    ));
    manager.add_authorization(&st(CORE), st("a")).unwrap();
    manager.add_authorization(&st(CORE), st("b")).unwrap();
    manager.add_authorization(&st(CORE), st("a")).unwrap();
    assert_eq!(manager.authorizations.addrs, vec![st("a"), st("b")]);
    manager.add_authorization(&st(CORE), st("c")).unwrap();
    assert_eq!(manager.authorizations.addrs, vec![st("a"), st("b"), st("c")]);
    assert!(matches!(
        manager.remove_authorization(&st(CORE), &st("d")),
        Err(ContractError::NotFound {})
    ));
    manager.remove_authorization(&st(CORE), &st("c")).unwrap();
    manager.add_authorization(&st(CORE), st("c")).unwrap();
    manager.remove_authorization(&st(CORE), &st("a")).unwrap();
    assert_eq!(manager.authorizations.addrs, vec![st("b"), st("c")]);
    manager.set_authorization(&st(CORE), st("z")).unwrap();
    assert_eq!(manager.authorizations.addrs, vec![st("z")]);

    assert!(matches!(
        manager.replace_owner(&st("x"), st("x")),
        Err(ContractError::Unauthorized { .. })
    ));
    manager.replace_owner(&st(CORE), st("new")).unwrap();
    assert_eq!(manager.config.dao, "new");
    assert!(manager.set_authorization(&st(CORE), st("y")).is_err());
}

#[test]
fn allow_list_administration() {
    let mut list = AllowList::new(st(CORE));
    assert!(matches!(list.allow(&st("x"), st("a")), Err(ContractError::Unauthorized { .. })));
    list.allow(&st(CORE), st("a")).unwrap();
    list.allow(&st(CORE), st("a")).unwrap();
    assert_eq!(list.members.addrs.len(), 1);
    assert!(list.is_authorized(&st("a")));
    assert!(matches!(list.disallow(&st(CORE), &st("b")), Err(ContractError::NotFound {})));
    list.disallow(&st(CORE), &st("a")).unwrap();
    assert!(!list.is_authorized(&st("a")));
}

#[test]
fn combinator_administration() {
    let mut c = AndContract::instantiate(st(CORE), vec![st("a"), st("b"), st("a")]);
    assert_eq!(c.get_sub_authorizations(), vec![st("a"), st("b")]);
    assert!(matches!(c.add_child(&st("x"), st("c")), Err(ContractError::Unauthorized { .. })));
    assert!(matches!(c.remove_child(&st(CORE), &st("c")), Err(ContractError::NotFound {})));
    c.remove_child(&st(CORE), &st("a")).unwrap();
    assert_eq!(c.get_sub_authorizations(), vec![st("b")]);
    assert!(c.is_authorized(&vec![Some(true)]));
    let o = OrContract::instantiate(st(CORE), vec![st("a")]);
    assert!(!o.is_authorized(&vec![Some(false)]));
}

#[test]
fn messages_reach_only_modules_that_take_them() {
    let mut net = Network::new();
    net.register(st("list"), Module::AllowList(AllowList::new(st(CORE))));
    net.register(st("all"), Module::AllOf(AndContract::new(st(CORE))));
    net.register(st("filter"), Module::MessageFilter(MessageFilter::new(st(CORE), Kind::Reject {})));

    let r = net.execute(&st(CORE), &st("list"), ExecuteMsg::AddChild { addr: st("x") });
    assert!(matches!(r, Err(ContractError::InvalidRequest {})));
    let r = net.execute(&st(CORE), &st("all"), ExecuteMsg::Allow { addr: st("x") });
    assert!(matches!(r, Err(ContractError::InvalidRequest {})));
    let r = net.execute(&st(CORE), &st("nowhere"), ExecuteMsg::Allow { addr: st("x") });
    assert!(matches!(r, Err(ContractError::NotFound {})));
    let r = net.execute(&st("x"), &st("list"), ExecuteMsg::Allow { addr: st("x") });
    assert!(matches!(r, Err(ContractError::Unauthorized { .. })));

    net.execute(&st(CORE), &st("list"), ExecuteMsg::Allow { addr: st("x") }).unwrap();
    assert!(authorized(&net, "list", &vec![], "x"));
    net.execute(&st(CORE), &st("list"), ExecuteMsg::Disallow { addr: st("x") }).unwrap();
    assert!(!authorized(&net, "list", &vec![], "x"));

    net.execute(
        &st(CORE),
        &st("filter"),
        ExecuteMsg::AddAuthorization { addr: st("x"), msg: st("{}"), pattern: empty() },
    )
    .unwrap();
    assert!(!authorized(&net, "filter", &vec![bank_send("y", 1, "juno")], "x"));
    net.execute(
        &st(CORE),
        &st("filter"),
        ExecuteMsg::RemoveAuthorization { addr: st("x"), msg: st("{}") },
    )
    .unwrap();
    assert!(authorized(&net, "filter", &vec![bank_send("y", 1, "juno")], "x"));

    let updates = net
        .execute(&st("x"), &st("all"), ExecuteMsg::UpdateExecutedAuthorizationState { msgs: vec![], sender: st("x") })
        .unwrap();
    assert!(updates.is_empty());
}

#[test]
fn modules_can_be_taken_out_and_put_back() {
    let mut net = Network::new();
    net.register(st("list"), Module::AllowList(AllowList::new(st(CORE))));
    assert!(net.take(&st("nowhere")).is_none());
    let module = net.take(&st("list")).unwrap();
    assert!(matches!(module, Module::AllowList(_)));
    assert!(net.take(&st("list")).is_none());
    assert!(matches!(
        net.execute(&st(CORE), &st("list"), ExecuteMsg::Allow { addr: st("a") }),
        Err(ContractError::NotFound {})
    ));
    net.register(st("list"), module);
    net.execute(&st(CORE), &st("list"), ExecuteMsg::Allow { addr: st("a") }).unwrap();
    assert!(authorized(&net, "list", &vec![], "a"));
    // registering again replaces the module
    net.register(st("list"), Module::AllowList(AllowList::new(st(CORE))));
    assert!(!authorized(&net, "list", &vec![], "a"));
    assert_eq!(net.entries.len(), 1);
}

#[test]
fn networks_report_their_well_formedness() {
    let mut net = Network::new();
    net.register(st("a"), Module::AllOf(AndContract::new(st(CORE))));
    net.register(st("b"), Module::AllowList(AllowList::new(st(CORE))));
    assert!(net.is_wf());
    net.entries.push((st("a"), Module::AnyOf(OrContract::new(st(CORE)))));
    assert!(!net.is_wf());
    let mut other = Network::new();
    let mut c = AndContract::new(st(CORE));
    c.children.addrs.push(st("x"));
    c.children.addrs.push(st("x"));
    assert!(!c.children.is_wf());
    other.entries.push((st("c"), Module::AllOf(c)));
    assert!(!other.is_wf());
}
