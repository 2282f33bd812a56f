use circuit::analyser::path_tag::PathTagged;
use circuit::util::{div_up, transpose, ChainMap, LinkedStack, OrderedMap};

#[test]
fn util_test_chainmap() {
    let mut chain_map: ChainMap<&'static str, u8> = ChainMap::new();

    chain_map.push_chain(vec![("a", 1), ("b", 2)]);

    assert_eq!(chain_map.get(&"a"), Some(&1));
    assert_eq!(chain_map.get(&"b"), Some(&2));

    chain_map.push_chain(vec![("a", 2), ("c", 5)]);

    assert_eq!(chain_map.get(&"a"), Some(&2));
    assert_eq!(chain_map.get(&"b"), Some(&2));
    assert_eq!(chain_map.get(&"c"), Some(&5));

    chain_map.pop_chain();

    assert_eq!(chain_map.get(&"a"), Some(&1));
    assert_eq!(chain_map.get(&"b"), Some(&2));

    chain_map.pop_chain();

    assert_eq!(chain_map.get(&"a"), None);
    assert_eq!(chain_map.get(&"b"), None);
}

#[test]
fn chain_map_test_chainmap() {
    let mut chain_map: ChainMap<&'static str, u8> = ChainMap::new();

    chain_map.push_chain(vec![("a", 1), ("b", 2)]);

    assert_eq!(chain_map.get(&"a"), Some(&1));
    assert_eq!(chain_map.get(&"b"), Some(&2));

    chain_map.push_chain(vec![("a", 2), ("c", 5)]);

    assert_eq!(chain_map.get(&"a"), Some(&2));
    assert_eq!(chain_map.get(&"b"), Some(&2));
    assert_eq!(chain_map.get(&"c"), Some(&5));

    chain_map.pop_chain();

    assert_eq!(chain_map.get(&"a"), Some(&1));
    assert_eq!(chain_map.get(&"b"), Some(&2));

    chain_map.pop_chain();

    assert_eq!(chain_map.get(&"a"), None);
    assert_eq!(chain_map.get(&"b"), None);
}

#[test]
fn test_linked_stack() {
    let stack = LinkedStack::new(1);
    assert_eq!(stack.iter().first().copied(), Some(&1));
    {
        let stack = stack.push(2);
        assert_eq!(stack.iter().first().copied(), Some(&2));

        {
            let stack = stack.push(3);
            let items: Vec<_> = stack.iter();
            assert_eq!(items, vec![&3, &2, &1]);

            assert_eq!(stack.find(&2), Some(1));
            assert_eq!(stack.find(&3), Some(0));
            assert_eq!(stack.find(&4), None);

            assert_eq!(stack.get(1), Some(&2));
        }

        assert_eq!(stack.iter().first().copied(), Some(&2));
        assert_eq!(stack.find(&3), None);
    }

    assert_eq!(stack.iter().first().copied(), Some(&1));
}

#[test]
fn div_up_rounds_up() {
    assert_eq!(div_up(0, 8), 0);
    assert_eq!(div_up(1, 8), 1);
    assert_eq!(div_up(8, 8), 1);
    assert_eq!(div_up(9, 8), 2);
    assert_eq!(div_up(17, 16), 2);
}

#[test]
fn transpose_handles_ragged_rows() {
    let m = vec![vec![1, 2, 3], vec![4], vec![5, 6]];
    assert_eq!(transpose(&m), vec![vec![1, 4, 5], vec![2, 6], vec![3]]);
    let empty: Vec<Vec<u8>> = Vec::new();
    assert!(transpose(&empty).is_empty());
}

#[test]
fn ordered_map_values_change_in_place() {
    let mut m: OrderedMap<usize, u32> = OrderedMap::new();
    let _ = m.insert(3, 30);
    let _ = m.insert(5, 50);
    if let Some(v) = m.get_mut(&5) {
        *v = 51;
    }
    assert!(m.get_mut(&7).is_none());
    assert_eq!(m.get(&5), Some(&51));
    for v in m.values_mut() {
        *v += 1;
    }
    assert_eq!(m.values(), &[31, 52]);
}

#[test]
fn path_tag_survives_map() {
    let tagged = PathTagged::tag_path(20u32, vec![1, 2]);
    let doubled = tagged.map_ref(|v| *v * 2);
    assert_eq!(doubled.path(), &[1, 2]);
    assert_eq!(*doubled.value(), 40);
    let as_text = tagged.map(|v| v + 1);
    assert_eq!(as_text.path_clone(), vec![1, 2]);
    assert_eq!(*as_text.value(), 21);
    assert!(PathTagged::tag_empty(0u8).path().is_empty());
}

#[test]
fn bright_colours_use_the_high_codes() {
    let mut out = String::new();
    circuit::ansi::AnsiColour::colour(
        circuit::ansi::AnsiColourType::_4Bit(true, 1),
        circuit::ansi::AnsiColourType::_4Bit(false, 2),
    )
    .render(&mut out);
    assert_eq!(out, "\x1b[91m\x1b[42m");
    let mut out = String::new();
    circuit::ansi::AnsiColour::colour(
        circuit::ansi::AnsiColourType::_4Bit(false, 1),
        circuit::ansi::AnsiColourType::_4Bit(true, 2),
    )
    .render(&mut out);
    assert_eq!(out, "\x1b[31m\x1b[102m");
}

#[test]
fn wires_of_a_word_do_not_alias() {
    use_sim_state();
}

fn use_sim_state() {
    let half = (usize::BITS / 2) as usize;
    let inputs = vec![0b10usize, 0b01usize];
    let s = circuit::extlib::SimState::new(circuit::extlib::RuntimeState { ticks: 0 }, inputs, vec![0, 0]);
    assert_eq!(s.read_input(0), circuit::extlib::State::H);
    assert_eq!(s.read_input(half), circuit::extlib::State::L);
    assert_eq!(s.read_input(1), circuit::extlib::State::Z);
}
