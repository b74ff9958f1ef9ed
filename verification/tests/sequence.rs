use dyn_sequence::DynSequence;

#[derive(Debug, Clone, Copy, PartialEq, Eq)]
enum Kind {
    U8,
    U16,
    Bool,
    Str,
}

fn push_u8(seq: &mut DynSequence<Kind>, v: u8) {
    seq.push_raw(&v.to_ne_bytes(), 1, Kind::U8);
}

fn push_u16(seq: &mut DynSequence<Kind>, v: u16) {
    seq.push_raw(&v.to_ne_bytes(), 2, Kind::U16);
}

fn push_bool(seq: &mut DynSequence<Kind>, v: bool) {
    seq.push_raw(&[v as u8], 1, Kind::Bool);
}

fn push_str(seq: &mut DynSequence<Kind>, v: &str) {
    seq.push_raw(v.as_bytes(), 1, Kind::Str);
}

fn as_u8(v: (&[u8], &Kind)) -> Option<u8> {
    match v {
        (&[b], Kind::U8) => Some(b),
        _ => None,
    }
}

fn as_u16(v: (&[u8], &Kind)) -> Option<u16> {
    match v {
        (&[a, b], Kind::U16) => Some(u16::from_ne_bytes([a, b])),
        _ => None,
    }
}

fn as_bool(v: (&[u8], &Kind)) -> Option<bool> {
    match v {
        (&[b], Kind::Bool) => Some(b != 0),
        _ => None,
    }
}

fn as_str<'l>(v: (&'l [u8], &Kind)) -> Option<&'l str> {
    match v {
        (bytes, Kind::Str) => std::str::from_utf8(bytes).ok(),
        _ => None,
    }
}

fn bytes_of(seq: &DynSequence<Kind>) -> Vec<Vec<u8>> {
    seq.as_slice().iter().map(|v| v.0.to_vec()).collect()
}

#[test]
fn test_ctor_macro() {
    let mut seq: DynSequence<Kind> = DynSequence::new();
    push_u8(&mut seq, 123u8);
    push_bool(&mut seq, true);
    push_u16(&mut seq, 456u16);
    push_str(&mut seq, "Hallo Welt!");

    assert_eq!(Some(123u8), seq.get(0).and_then(as_u8));
    assert_eq!(None, seq.get(0).and_then(as_u16));
    assert_eq!(Some(true), seq.get(1).and_then(as_bool));
    assert_eq!(Some(456u16), seq.get(2).and_then(as_u16));
    assert_eq!(Some("Hallo Welt!"), seq.get(3).and_then(as_str));
    assert!(seq.get(4).is_none());
}

#[test]
fn test_placement_macro() {
    let mut seq: DynSequence<Kind> = DynSequence::new();
    seq.push_raw(&123u8.to_ne_bytes(), 1, Kind::U8);
    seq.push_raw(&456u16.to_ne_bytes(), 2, Kind::U16);
    seq.insert_raw(1, &[true as u8], 1, Kind::Bool);
    seq.push_raw("Hallo Welt!".as_bytes(), 1, Kind::Str);

    assert_eq!(Some(123u8), seq.get(0).and_then(as_u8));
    assert_eq!(None, seq.get(0).and_then(as_u16));
    assert_eq!(Some(true), seq.get(1).and_then(as_bool));
    assert_eq!(Some(456u16), seq.get(2).and_then(as_u16));
    assert_eq!(Some("Hallo Welt!"), seq.get(3).and_then(as_str));
    assert!(seq.get(4).is_none());
}

#[test]
fn test_push_insert_unstable() {
    let mut seq: DynSequence<Kind> = DynSequence::new();
    assert!(seq.push(&123u8.to_ne_bytes(), 1, Kind::U8).is_some());
    assert!(seq.push(&456u16.to_ne_bytes(), 2, Kind::U16).is_some());
    assert!(seq.insert(1, &[true as u8], 1, Kind::Bool).is_some());
    assert!(seq.push("Hallo Welt!".as_bytes(), 1, Kind::Str).is_some());

    assert_eq!(Some(123u8), seq.get(0).and_then(as_u8));
    assert_eq!(None, seq.get(0).and_then(as_u16));
    assert_eq!(Some(true), seq.get(1).and_then(as_bool));
    assert_eq!(Some(456u16), seq.get(2).and_then(as_u16));
    assert_eq!(Some("Hallo Welt!"), seq.get(3).and_then(as_str));
    assert!(seq.get(4).is_none());
}

#[test]
fn text_inserted_at_position_one() {
    let mut seq: DynSequence<Kind> = DynSequence::new();
    push_u8(&mut seq, 123);
    push_u16(&mut seq, 456);
    push_bool(&mut seq, true);
    seq.insert_raw(1, "Hallo Welt!".as_bytes(), 1, Kind::Str);

    assert_eq!(seq.len(), 4);
    assert_eq!(seq.get(0).and_then(as_u8), Some(123));
    assert_eq!(seq.get(1).and_then(as_str), Some("Hallo Welt!"));
    assert_eq!(seq.get(2).and_then(as_u16), Some(456));
    assert_eq!(seq.get(3).and_then(as_bool), Some(true));
    assert!(seq.get(4).is_none());
    // a lookup at the wrong kind finds nothing
    assert_eq!(seq.get(0).and_then(as_u16), None);
    assert_eq!(seq.get(0).and_then(as_bool), None);
    assert_eq!(seq.get(1).and_then(as_u8), None);
    assert_eq!(seq.get(2).and_then(as_u8), None);
    assert_eq!(seq.get(3).and_then(as_str), None);
}

#[test]
fn new_container_is_empty() {
    let seq: DynSequence<Kind> = DynSequence::new();
    assert_eq!(seq.len(), 0);
    assert!(seq.is_empty());
    assert!(seq.get(0).is_none());
    assert!(seq.get(usize::MAX).is_none());
    assert!(seq.as_slice().is_empty());
    let sized: DynSequence<Kind> = DynSequence::with_blocksize(16);
    assert_eq!(sized.len(), 0);
    assert!(sized.is_empty());
}

#[test]
fn get_out_of_range_is_none() {
    let mut seq: DynSequence<Kind> = DynSequence::new();
    assert!(seq.get(0).is_none());
    assert!(seq.get_mut(0).is_none());
    for n in 1..6usize {
        push_u8(&mut seq, n as u8);
        assert_eq!(seq.len(), n);
        assert!(!seq.is_empty());
        assert!(seq.get(n - 1).is_some());
        assert!(seq.get(n).is_none());
        assert!(seq.get(n + 1).is_none());
        assert!(seq.get_mut(n - 1).is_some());
        assert!(seq.get_mut(n).is_none());
        assert!(seq.get_mut(usize::MAX).is_none());
    }
}

#[test]
fn insert_shifts_later_values_up() {
    let mut seq: DynSequence<u32> = DynSequence::new();
    let mut expect: Vec<(Vec<u8>, u32)> = Vec::new();
    let at = [0usize, 0, 1, 3, 2, 0, 6, 3];
    for (n, index) in at.iter().enumerate() {
        let bytes = vec![n as u8; n + 1];
        seq.insert_raw(*index, &bytes, 1, n as u32 * 10);
        expect.insert(*index, (bytes, n as u32 * 10));
        assert_eq!(seq.len(), expect.len());
        for (i, want) in expect.iter().enumerate() {
            let got = seq.get(i).unwrap();
            assert_eq!(got.0, &want.0[..]);
            assert_eq!(*got.1, want.1);
        }
    }
    let order: Vec<u32> = seq.as_slice().iter().map(|v| *v.1).collect();
    assert_eq!(order, vec![50, 10, 20, 70, 40, 0, 30, 60]);
}

#[test]
fn values_keep_their_bytes_across_blocks() {
    let mut seq: DynSequence<usize> = DynSequence::with_blocksize(16);
    let mut expect: Vec<Vec<u8>> = Vec::new();
    for n in 0..400usize {
        let bytes: Vec<u8> = (0..(n * 13) % 97).map(|i| (i * 7 + n) as u8).collect();
        let align = 1usize << (n % 6);
        let r = seq.push_raw(&bytes, align, n);
        assert_eq!(r, &bytes[..]);
        expect.push(bytes);
    }
    let big = vec![0xabu8; 10_000];
    seq.insert_raw(200, &big, 64, 9999);
    expect.insert(200, big);
    assert_eq!(seq.len(), 401);
    for (i, want) in expect.iter().enumerate() {
        assert_eq!(seq.get(i).unwrap().0, &want[..], "position {}", i);
    }
    assert_eq!(*seq.get(200).unwrap().1, 9999);
    assert_eq!(*seq.get(199).unwrap().1, 199);
    assert_eq!(*seq.get(201).unwrap().1, 200);
}

#[test]
fn result_of_push_writes_the_placed_value() {
    let mut seq: DynSequence<Kind> = DynSequence::new();
    push_u8(&mut seq, 1);
    {
        let r = seq.push_raw(&[10, 20, 30], 1, Kind::Str);
        assert_eq!(r.len(), 3);
        r[1] = 21;
    }
    {
        let r = seq.insert_raw(0, &[5, 6], 2, Kind::U16);
        r[0] = 7;
    }
    assert_eq!(bytes_of(&seq), vec![vec![7u8, 6], vec![1], vec![10, 21, 30]]);
}

#[test]
fn get_mut_writes_one_value_only() {
    let mut seq: DynSequence<Kind> = DynSequence::new();
    push_u8(&mut seq, 1);
    push_u16(&mut seq, 0x0203);
    push_str(&mut seq, "abc");
    {
        let (bytes, kind) = seq.get_mut(1).unwrap();
        assert_eq!(*kind, Kind::U16);
        assert_eq!(bytes.len(), 2);
        bytes.copy_from_slice(&0x0a0bu16.to_ne_bytes());
    }
    assert_eq!(seq.get(0).and_then(as_u8), Some(1));
    assert_eq!(seq.get(1).and_then(as_u16), Some(0x0a0b));
    assert_eq!(seq.get(2).and_then(as_str), Some("abc"));
    {
        let (bytes, _) = seq.get_mut(2).unwrap();
        bytes[0] = b'x';
    }
    assert_eq!(seq.get(1).and_then(as_u16), Some(0x0a0b));
    assert_eq!(seq.get(2).and_then(as_str), Some("xbc"));
    assert_eq!(seq.len(), 3);
}

#[test]
fn index_reads_and_writes_by_position() {
    let mut seq: DynSequence<Kind> = DynSequence::new();
    push_u8(&mut seq, 11);
    push_u8(&mut seq, 22);
    assert_eq!(as_u8(seq.index(0)), Some(11));
    assert_eq!(as_u8(seq.index(1)), Some(22));
    seq.index_mut(0).0[0] = 33;
    assert_eq!(as_u8(seq.index(0)), Some(33));
    assert_eq!(as_u8(seq.index(1)), Some(22));
}

#[test]
fn empty_values_are_values() {
    let mut seq: DynSequence<Kind> = DynSequence::new();
    push_str(&mut seq, "");
    push_u8(&mut seq, 4);
    seq.insert_raw(1, &[], 8, Kind::Str);
    assert_eq!(seq.len(), 3);
    assert_eq!(seq.get(0).and_then(as_str), Some(""));
    assert_eq!(seq.get(1).and_then(as_str), Some(""));
    assert_eq!(seq.get(2).and_then(as_u8), Some(4));
}

#[test]
fn checked_entry_leaves_the_container_where_it_cannot_place() {
    let mut seq: DynSequence<Kind> = DynSequence::new();
    push_u8(&mut seq, 1);
    assert!(!seq.can_place(1, 0));
    assert!(seq.push(&[2], 0, Kind::U8).is_none());
    assert!(seq.insert(0, &[2], 0, Kind::U8).is_none());
    assert_eq!(seq.len(), 1);
    assert_eq!(seq.get(0).and_then(as_u8), Some(1));
    assert!(seq.can_place(1, 1));
    assert_eq!(seq.insert(0, &[2], 1, Kind::U8).map(|r| r.to_vec()), Some(vec![2u8]));
    assert_eq!(seq.push(&[3], 1, Kind::U8).map(|r| r.to_vec()), Some(vec![3u8]));
    assert_eq!(bytes_of(&seq), vec![vec![2u8], vec![1], vec![3]]);
}

#[test]
fn checked_entry_when_the_address_space_is_used_up() {
    let half = 1usize << (usize::BITS - 1);
    let mut seq: DynSequence<Kind> = DynSequence::new();
    assert!(seq.push(&[1], half, Kind::U8).is_some());
    assert!(seq.push(&[2], half, Kind::U8).is_some());
    assert!(!seq.can_place(1, half));
    assert!(seq.push(&[3], half, Kind::U8).is_none());
    assert_eq!(seq.len(), 2);
    assert_eq!(bytes_of(&seq), vec![vec![1u8], vec![2]]);
}

#[test]
fn as_slice_gives_all_values_in_order() {
    let mut seq: DynSequence<Kind> = DynSequence::new();
    push_u8(&mut seq, 9);
    push_str(&mut seq, "two");
    seq.insert_raw(0, &[1], 1, Kind::Bool);
    let all = seq.as_slice();
    assert_eq!(all.len(), 3);
    assert_eq!(as_bool(all[0]), Some(true));
    assert_eq!(as_u8(all[1]), Some(9));
    assert_eq!(as_str(all[2]), Some("two"));
}

#[test]
fn cursor_goes_forward() {
    let mut seq: DynSequence<Kind> = DynSequence::new();
    for n in 0..5u8 {
        push_u8(&mut seq, n);
    }
    let mut it = seq.iter();
    assert_eq!(it.len(), 5);
    assert_eq!(it.size_hint(), (5, Some(5)));
    for n in 0..5u8 {
        assert_eq!(it.len(), 5 - n as usize);
        assert_eq!(it.next().and_then(as_u8), Some(n));
    }
    assert_eq!(it.len(), 0);
    assert_eq!(it.size_hint(), (0, Some(0)));
    assert!(it.next().is_none());
    assert!(it.next().is_none());
    assert!(it.next_back().is_none());
}

#[test]
fn cursor_goes_backward_and_meets_in_the_middle() {
    let mut seq: DynSequence<Kind> = DynSequence::new();
    for n in 0..5u8 {
        push_u8(&mut seq, n);
    }
    let mut it = seq.iter();
    assert_eq!(it.next_back().and_then(as_u8), Some(4));
    assert_eq!(it.next().and_then(as_u8), Some(0));
    assert_eq!(it.next_back().and_then(as_u8), Some(3));
    assert_eq!(it.next().and_then(as_u8), Some(1));
    assert_eq!(it.len(), 1);
    assert_eq!(it.next_back().and_then(as_u8), Some(2));
    assert!(it.next().is_none());
    assert!(it.next_back().is_none());
}

#[test]
fn cursor_skips_counts_and_finds_the_last() {
    let mut seq: DynSequence<Kind> = DynSequence::new();
    for n in 0..6u8 {
        push_u8(&mut seq, n);
    }
    let mut it = seq.iter();
    assert_eq!(it.nth(0).and_then(as_u8), Some(0));
    assert_eq!(it.nth(2).and_then(as_u8), Some(3));
    assert_eq!(it.len(), 2);
    assert_eq!(seq.iter().last().and_then(as_u8), Some(5));
    assert_eq!(seq.iter().count(), 6);
    assert!(it.nth(2).is_none());
    assert_eq!(it.len(), 0);
    assert!(it.next().is_none());
    let mut all = seq.iter();
    assert!(all.nth(6).is_none());
    assert_eq!(all.count(), 0);
    let empty: DynSequence<Kind> = DynSequence::new();
    assert!(empty.iter().last().is_none());
    assert_eq!(empty.iter().count(), 0);
    assert!(empty.iter().next().is_none());
}

#[test]
fn cursor_is_taken_up_where_it_was_put_aside() {
    let mut seq: DynSequence<Kind> = DynSequence::new();
    for n in 0..4u8 {
        push_u8(&mut seq, n);
    }
    let mut it = seq.iter();
    it.next();
    let (front, back) = (it.front, it.back);
    assert_eq!((front, back), (1, 4));
    let mut again = seq.iter();
    again.front = front;
    again.back = back;
    assert_eq!(again.next().and_then(as_u8), Some(1));
    assert_eq!(again.len(), 2);
}

#[test]
fn mutable_cursor_writes_each_value_in_place() {
    let mut seq: DynSequence<Kind> = DynSequence::new();
    push_u8(&mut seq, 1);
    push_u16(&mut seq, 2);
    push_u8(&mut seq, 3);
    {
        let mut it = seq.iter_mut();
        assert_eq!(it.len(), 3);
        assert_eq!(it.size_hint(), (3, Some(3)));
        while let Some((bytes, kind)) = it.next() {
            match kind {
                Kind::U8 => bytes[0] += 100,
                _ => bytes.copy_from_slice(&500u16.to_ne_bytes()),
            }
        }
        assert_eq!(it.len(), 0);
        assert!(it.next_back().is_none());
    }
    assert_eq!(seq.len(), 3);
    assert_eq!(seq.get(0).and_then(as_u8), Some(101));
    assert_eq!(seq.get(1).and_then(as_u16), Some(500));
    assert_eq!(seq.get(2).and_then(as_u8), Some(103));
}

#[test]
fn mutable_cursor_from_both_ends() {
    let mut seq: DynSequence<Kind> = DynSequence::new();
    for n in 0..6u8 {
        push_u8(&mut seq, n);
    }
    {
        let mut it = seq.iter_mut();
        it.next_back().unwrap().0[0] = 50;
        it.next().unwrap().0[0] = 10;
        it.nth(1).unwrap().0[0] = 20;
        assert_eq!(it.len(), 2);
        it.last().unwrap().0[0] = 40;
    }
    assert_eq!(bytes_of(&seq), vec![vec![10u8], vec![1], vec![20], vec![3], vec![40], vec![50]]);
    assert_eq!(seq.iter_mut().count(), 6);
    let mut it = seq.iter_mut();
    assert!(it.nth(6).is_none());
    assert_eq!(it.len(), 0);
    assert!(it.last().is_none());
}

#[test]
fn drain_gives_each_value_once() {
    let mut seq: DynSequence<Kind> = DynSequence::new();
    push_u8(&mut seq, 123);
    push_u16(&mut seq, 456);
    push_bool(&mut seq, true);
    seq.insert_raw(1, "Hallo Welt!".as_bytes(), 1, Kind::Str);
    let gone = seq.drain();
    assert_eq!(
        gone,
        vec![
            (vec![123u8], Kind::U8),
            ("Hallo Welt!".as_bytes().to_vec(), Kind::Str),
            (456u16.to_ne_bytes().to_vec(), Kind::U16),
            (vec![1u8], Kind::Bool),
        ]
    );
    assert!(seq.is_empty());
    assert!(seq.get(0).is_none());
    // nothing is left to give a second time
    assert!(seq.drain().is_empty());
    // the container can be filled again
    push_u8(&mut seq, 7);
    assert_eq!(seq.drain(), vec![(vec![7u8], Kind::U8)]);
}

#[test]
fn drain_hands_over_metadata_that_owns_something() {
    let mut seq: DynSequence<String> = DynSequence::new();
    seq.push_raw(&[1], 1, String::from("first"));
    seq.push_raw(&[2, 2], 1, String::from("second"));
    seq.insert_raw(0, &[0], 1, String::from("zeroth"));
    assert_eq!(seq.get(1).unwrap().1, "first");
    let gone = seq.drain();
    let names: Vec<&str> = gone.iter().map(|v| v.1.as_str()).collect();
    assert_eq!(names, vec!["zeroth", "first", "second"]);
    assert_eq!(gone[2].0, vec![2u8, 2]);
}
