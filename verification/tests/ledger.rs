use cosmwasm_std::testing::MockStorage;
use cosmwasm_std::{Order, Storage};
use floob_contract::codec::encode_u64;
use floob_contract::contract::{
    advance, advance_posts_count, advance_subthread_count, execute, instantiate, query,
};
use floob_contract::error::ContractError;
use floob_contract::keys::{
    thread_count_key, thread_elem_count_key, thread_elem_key, thread_key,
};
use floob_contract::msg::{ExecuteMsg, InstantiateMsg, MessageInfo, QueryMsg};
use floob_contract::repository::{load_thread, save_thread, save_thread_elem};
use floob_contract::state::{Thread, ThreadElem};

fn info(sender: &str) -> MessageInfo {
    MessageInfo {
        sender: sender.to_string(),
    }
}

fn create_thread(title: &str, description: &str) -> ExecuteMsg {
    ExecuteMsg::CreateThread {
        title: title.to_string(),
        description: description.to_string(),
    }
}

fn create_elem(thread_id: u64, content: &str) -> ExecuteMsg {
    ExecuteMsg::CreateThreadElem {
        thread_id,
        content: content.to_string(),
    }
}

fn thread(title: &str, description: &str, author: &str) -> Thread {
    Thread {
        title: title.to_string(),
        description: description.to_string(),
        author: author.to_string(),
    }
}

fn elem(content: &str, author: &str) -> ThreadElem {
    ThreadElem {
        content: content.to_string(),
        author: author.to_string(),
    }
}

fn snapshot(store: &MockStorage) -> Vec<(Vec<u8>, Vec<u8>)> {
    store.range(None, None, Order::Ascending).collect()
}

#[test]
fn instantiate_changes_nothing() {
    let mut store = MockStorage::new();
    assert_eq!(
        instantiate(&mut store, info("creator"), InstantiateMsg {}),
        Ok(())
    );
    assert!(snapshot(&store).is_empty());
    execute(&mut store, info("alice"), create_thread("a", "b")).unwrap();
    let before = snapshot(&store);
    assert_eq!(
        instantiate(&mut store, info("creator"), InstantiateMsg {}),
        Ok(())
    );
    assert_eq!(snapshot(&store), before);
}

#[test]
fn scenario_threads_and_replies() {
    let mut store = MockStorage::new();
    assert_eq!(
        execute(&mut store, info("alice"), create_thread("Hello", "World")),
        Ok(())
    );
    assert_eq!(store.get(&thread_count_key()), Some(encode_u64(1)));
    assert_eq!(
        execute(&mut store, info("bob"), create_elem(1, "first reply")),
        Ok(())
    );
    assert_eq!(
        store.get(&thread_elem_key(1, 1)),
        Some(elem("first reply", "bob").to_bytes())
    );
    assert_eq!(
        execute(&mut store, info("alice"), create_elem(1, "second reply")),
        Ok(())
    );
    assert_eq!(
        store.get(&thread_elem_key(1, 2)),
        Some(elem("second reply", "alice").to_bytes())
    );
    assert_eq!(store.get(&thread_elem_count_key(1)), Some(encode_u64(2)));
    assert_eq!(store.get(&thread_elem_key(1, 3)), None);
    assert_eq!(
        query(&store, QueryMsg::Thread { id: 1 }),
        Ok(thread("Hello", "World", "alice"))
    );
    assert_eq!(
        query(&store, QueryMsg::Thread { id: 2 }),
        Err(ContractError::NotFound)
    );
}

#[test]
fn thread_ids_are_gapless_in_call_order() {
    let mut store = MockStorage::new();
    let n = 20u64;
    for i in 1..=n {
        let title = format!("title {}", i);
        assert_eq!(
            execute(&mut store, info("alice"), create_thread(&title, "d")),
            Ok(())
        );
        assert_eq!(store.get(&thread_count_key()), Some(encode_u64(i)));
    }
    for i in 1..=n {
        let title = format!("title {}", i);
        assert_eq!(
            query(&store, QueryMsg::Thread { id: i }),
            Ok(thread(&title, "d", "alice"))
        );
    }
    assert_eq!(
        query(&store, QueryMsg::Thread { id: 0 }),
        Err(ContractError::NotFound)
    );
    assert_eq!(
        query(&store, QueryMsg::Thread { id: n + 1 }),
        Err(ContractError::NotFound)
    );
    assert_eq!(snapshot(&store).len(), 21);
}

#[test]
fn elem_ids_are_gapless_per_thread() {
    let mut store = MockStorage::new();
    let m = 12u64;
    for i in 1..=m {
        let content = format!("reply {}", i);
        assert_eq!(
            execute(&mut store, info("bob"), create_elem(3, &content)),
            Ok(())
        );
        assert_eq!(store.get(&thread_elem_count_key(3)), Some(encode_u64(i)));
    }
    for i in 1..=m {
        let content = format!("reply {}", i);
        assert_eq!(
            store.get(&thread_elem_key(3, i)),
            Some(elem(&content, "bob").to_bytes())
        );
    }
    assert_eq!(store.get(&thread_elem_key(3, 0)), None);
    assert_eq!(store.get(&thread_elem_key(3, m + 1)), None);
    assert_eq!(store.get(&thread_elem_count_key(4)), None);
    assert_eq!(store.get(&thread_count_key()), None);
}

#[test]
fn counters_of_different_threads_are_independent() {
    let mut store = MockStorage::new();
    let order = [5u64, 7, 7, 5, 7, 5, 5, 7, 7, 7];
    let mut next_5 = 0u64;
    let mut next_7 = 0u64;
    for (call, thread_id) in order.iter().enumerate() {
        let content = format!("call {}", call);
        assert_eq!(
            execute(&mut store, info("carol"), create_elem(*thread_id, &content)),
            Ok(())
        );
        let expected = if *thread_id == 5 {
            next_5 += 1;
            next_5
        } else {
            next_7 += 1;
            next_7
        };
        assert_eq!(
            store.get(&thread_elem_key(*thread_id, expected)),
            Some(elem(&content, "carol").to_bytes())
        );
        assert_eq!(store.get(&thread_elem_count_key(5)).unwrap_or(encode_u64(0)), encode_u64(next_5));
        assert_eq!(store.get(&thread_elem_count_key(7)).unwrap_or(encode_u64(0)), encode_u64(next_7));
    }
    assert_eq!(next_5, 4);
    assert_eq!(next_7, 6);
    assert_eq!(store.get(&thread_elem_key(5, 5)), None);
    assert_eq!(store.get(&thread_elem_key(7, 7)), None);
    assert_eq!(snapshot(&store).len(), 12);
}

#[test]
fn elements_do_not_need_their_thread() {
    let mut store = MockStorage::new();
    assert_eq!(
        execute(&mut store, info("bob"), create_elem(42, "orphan")),
        Ok(())
    );
    assert_eq!(
        store.get(&thread_elem_key(42, 1)),
        Some(elem("orphan", "bob").to_bytes())
    );
    assert_eq!(
        query(&store, QueryMsg::Thread { id: 42 }),
        Err(ContractError::NotFound)
    );
    execute(&mut store, info("alice"), create_thread("t", "d")).unwrap();
    assert_eq!(
        query(&store, QueryMsg::Thread { id: 1 }),
        Ok(thread("t", "d", "alice"))
    );
    assert_eq!(store.get(&thread_elem_count_key(1)), None);
}

#[test]
fn read_your_write() {
    let mut store = MockStorage::new();
    assert_eq!(
        execute(&mut store, info("A"), create_thread("T1", "D1")),
        Ok(())
    );
    assert_eq!(
        query(&store, QueryMsg::Thread { id: 1 }),
        Ok(thread("T1", "D1", "A"))
    );
    assert_eq!(load_thread(&store, 1), Ok(thread("T1", "D1", "A")));
    assert_eq!(
        store.get(&thread_key(1)),
        Some(thread("T1", "D1", "A").to_bytes())
    );
}

#[test]
fn unassigned_ids_are_not_found() {
    let mut store = MockStorage::new();
    for id in [0u64, 1, 2, 1000, u64::MAX] {
        assert_eq!(
            query(&store, QueryMsg::Thread { id }),
            Err(ContractError::NotFound)
        );
    }
    execute(&mut store, info("alice"), create_thread("a", "b")).unwrap();
    execute(&mut store, info("alice"), create_elem(2, "c")).unwrap();
    for id in [0u64, 2, 3, 1000, u64::MAX] {
        assert_eq!(
            query(&store, QueryMsg::Thread { id }),
            Err(ContractError::NotFound)
        );
    }
}

#[test]
fn thread_counter_overflow_changes_nothing() {
    let mut store = MockStorage::new();
    store.set(&thread_count_key(), &encode_u64(u64::MAX));
    let before = snapshot(&store);
    assert_eq!(
        execute(&mut store, info("alice"), create_thread("a", "b")),
        Err(ContractError::CounterOverflow)
    );
    assert_eq!(snapshot(&store), before);
    assert_eq!(
        advance_posts_count(&mut store),
        Err(ContractError::CounterOverflow)
    );
    assert_eq!(snapshot(&store), before);
    assert_eq!(
        execute(&mut store, info("bob"), create_elem(1, "still fine")),
        Ok(())
    );
    store.set(&thread_count_key(), &encode_u64(u64::MAX - 1));
    assert_eq!(
        execute(&mut store, info("alice"), create_thread("last", "one")),
        Ok(())
    );
    assert_eq!(store.get(&thread_count_key()), Some(encode_u64(u64::MAX)));
    assert_eq!(
        query(&store, QueryMsg::Thread { id: u64::MAX }),
        Ok(thread("last", "one", "alice"))
    );
    assert_eq!(
        execute(&mut store, info("alice"), create_thread("a", "b")),
        Err(ContractError::CounterOverflow)
    );
}

#[test]
fn elem_counter_overflow_changes_nothing() {
    let mut store = MockStorage::new();
    store.set(&thread_elem_count_key(9), &encode_u64(u64::MAX));
    let before = snapshot(&store);
    assert_eq!(
        execute(&mut store, info("bob"), create_elem(9, "x")),
        Err(ContractError::CounterOverflow)
    );
    assert_eq!(snapshot(&store), before);
    assert_eq!(
        advance_subthread_count(&mut store, 9),
        Err(ContractError::CounterOverflow)
    );
    assert_eq!(snapshot(&store), before);
    assert_eq!(execute(&mut store, info("bob"), create_elem(8, "x")), Ok(()));
    assert_eq!(store.get(&thread_elem_key(8, 1)), Some(elem("x", "bob").to_bytes()));
    store.set(&thread_elem_count_key(9), &encode_u64(41));
    assert_eq!(execute(&mut store, info("bob"), create_elem(9, "y")), Ok(()));
    assert_eq!(store.get(&thread_elem_key(9, 42)), Some(elem("y", "bob").to_bytes()));
}

#[test]
fn unreadable_counter_is_invalid_data() {
    let mut store = MockStorage::new();
    store.set(&thread_count_key(), &[1, 2, 3]);
    store.set(&thread_elem_count_key(1), &[0; 9]);
    let before = snapshot(&store);
    assert_eq!(
        execute(&mut store, info("alice"), create_thread("a", "b")),
        Err(ContractError::InvalidData)
    );
    assert_eq!(
        execute(&mut store, info("alice"), create_elem(1, "c")),
        Err(ContractError::InvalidData)
    );
    assert_eq!(snapshot(&store), before);
    assert_eq!(execute(&mut store, info("alice"), create_elem(2, "c")), Ok(()));
}

#[test]
fn unreadable_thread_is_invalid_data() {
    let mut store = MockStorage::new();
    store.set(&thread_key(1), &[0, 0, 0, 0]);
    assert_eq!(
        query(&store, QueryMsg::Thread { id: 1 }),
        Err(ContractError::InvalidData)
    );
    assert_eq!(load_thread(&store, 1), Err(ContractError::InvalidData));
    assert_eq!(load_thread(&store, 2), Err(ContractError::NotFound));
}

#[test]
fn advance_gives_successive_ids() {
    let mut store = MockStorage::new();
    assert_eq!(advance_posts_count(&mut store), Ok(1));
    assert_eq!(advance_posts_count(&mut store), Ok(2));
    assert_eq!(advance_subthread_count(&mut store, 2), Ok(1));
    assert_eq!(advance_posts_count(&mut store), Ok(3));
    assert_eq!(advance_subthread_count(&mut store, 2), Ok(2));
    assert_eq!(advance_subthread_count(&mut store, 1), Ok(1));
    assert_eq!(store.get(&thread_count_key()), Some(encode_u64(3)));
    assert_eq!(store.get(&thread_elem_count_key(2)), Some(encode_u64(2)));
    assert_eq!(store.get(&thread_elem_count_key(1)), Some(encode_u64(1)));
    assert_eq!(snapshot(&store).len(), 3);
}

#[test]
fn advance_works_on_any_key() {
    let mut store = MockStorage::new();
    store.set(b"other", &encode_u64(99));
    assert_eq!(advance(&mut store, b"counter"), Ok(1));
    assert_eq!(advance(&mut store, b"other"), Ok(100));
    assert_eq!(advance(&mut store, b"counter"), Ok(2));
    assert_eq!(store.get(b"counter"), Some(encode_u64(2)));
    assert_eq!(store.get(b"other"), Some(encode_u64(100)));
    store.set(b"full", &encode_u64(u64::MAX));
    assert_eq!(advance(&mut store, b"full"), Err(ContractError::CounterOverflow));
    assert_eq!(store.get(b"full"), Some(encode_u64(u64::MAX)));
    store.set(b"odd", &[1]);
    assert_eq!(advance(&mut store, b"odd"), Err(ContractError::InvalidData));
    assert_eq!(store.get(b"odd"), Some(vec![1]));
}

#[test]
fn save_overwrites() {
    let mut store = MockStorage::new();
    save_thread(&mut store, 7, &thread("a", "b", "c"));
    assert_eq!(load_thread(&store, 7), Ok(thread("a", "b", "c")));
    save_thread(&mut store, 7, &thread("x", "y", "z"));
    assert_eq!(load_thread(&store, 7), Ok(thread("x", "y", "z")));
    assert_eq!(load_thread(&store, 6), Err(ContractError::NotFound));
    save_thread_elem(&mut store, 7, 3, &elem("r", "s"));
    assert_eq!(store.get(&thread_elem_key(7, 3)), Some(elem("r", "s").to_bytes()));
    save_thread_elem(&mut store, 7, 3, &elem("t", "u"));
    assert_eq!(store.get(&thread_elem_key(7, 3)), Some(elem("t", "u").to_bytes()));
    assert_eq!(snapshot(&store).len(), 2);
}

#[test]
fn author_is_stored_verbatim() {
    let mut store = MockStorage::new();
    let sender = "cosmos1\u{e9} with spaces ";
    execute(&mut store, info(sender), create_thread("", "")).unwrap();
    assert_eq!(
        query(&store, QueryMsg::Thread { id: 1 }),
        Ok(thread("", "", sender))
    );
}

#[test]
fn requests_name_the_entry_they_read() {
    assert_eq!(create_thread("a", "b").counter_key(), thread_count_key());
    assert_eq!(create_elem(5, "c").counter_key(), thread_elem_count_key(5));
    assert_eq!(create_elem(7, "c").counter_key(), thread_elem_count_key(7));
    assert_eq!(QueryMsg::Thread { id: 9 }.record_key(), thread_key(9));
}

#[test]
fn a_request_only_looks_at_its_own_entry() {
    let mut store = MockStorage::new();
    execute(&mut store, info("alice"), create_thread("a", "b")).unwrap();
    execute(&mut store, info("bob"), create_elem(1, "c")).unwrap();
    execute(&mut store, info("bob"), create_elem(2, "d")).unwrap();
    for msg in [create_thread("x", "y"), create_elem(1, "z"), create_elem(3, "w")] {
        let mut copy = MockStorage::new();
        let key = msg.counter_key();
        if let Some(value) = store.get(&key) {
            copy.set(&key, &value);
        }
        let mut expected = snapshot(&store);
        assert_eq!(execute(&mut copy, info("carol"), msg.clone()), Ok(()));
        assert_eq!(execute(&mut store, info("carol"), msg), Ok(()));
        for (k, v) in snapshot(&copy) {
            expected.retain(|(other, _)| *other != k);
            expected.push((k, v));
        }
        expected.sort();
        assert_eq!(snapshot(&store), expected);
    }
    let mut copy = MockStorage::new();
    let request = QueryMsg::Thread { id: 2 };
    let key = request.record_key();
    copy.set(&key, &store.get(&key).unwrap());
    assert_eq!(query(&copy, request.clone()), query(&store, request));
    assert_eq!(query(&copy, QueryMsg::Thread { id: 1 }), Err(ContractError::NotFound));
}
