use http11::helpers::bytes::{Bytes, FragmentedBytes};

fn create_fragmented_bytes() -> FragmentedBytes {
    let bytes1 = Bytes::new(vec![1, 2, 3, 4], 4);
    let bytes2 = Bytes::new(vec![5, 6, 7, 8], 4);
    let bytes3 = Bytes::new(vec![11, 12, 13, 14], 4);
    let bytes4 = Bytes::new(vec![15, 16, 17, 18], 4);

    FragmentedBytes::new(vec![bytes1, bytes2, bytes3, bytes4])
}

fn collect(fragmented_bytes: &FragmentedBytes) -> Vec<u8> {
    let mut iter = fragmented_bytes.iter();
    let mut bytes = vec![];
    while let Some(byte) = iter.next() {
        bytes.push(byte);
    }
    bytes
}

fn test_fragmented_byte_content(fragmented_bytes: &mut FragmentedBytes, expected_bytes: &Vec<u8>) {
    let actual_bytes: Vec<u8> = collect(fragmented_bytes);
    assert_eq!(&actual_bytes, expected_bytes);
}

#[test]
fn test_create_fragmented_bytes() {
    let expected_vector = vec![1, 2, 3, 4, 5, 6, 7, 8, 11, 12, 13, 14, 15, 16, 17, 18];

    let mut bytes = create_fragmented_bytes();

    test_fragmented_byte_content(&mut bytes, &expected_vector);

    let mut iter1 = bytes.iter();
    let mut v1 = expected_vector.iter();

    assert_eq!(iter1.peek().unwrap(), *v1.next().unwrap());
    iter1.next();

    assert_eq!(iter1.peek().unwrap(), *v1.next().unwrap());
    iter1.next();

    while let Some(i) = iter1.next() {
        assert_eq!(*v1.next().unwrap(), i);
    }
}

#[test]
fn test_remaining_bytes() {
    let expected_vector = vec![1, 2, 3, 4, 5, 6, 7, 8, 11, 12, 13, 14, 15, 16, 17, 18];

    let mut fragmented_bytes = create_fragmented_bytes();
    test_fragmented_byte_content(&mut fragmented_bytes, &expected_vector);

    assert_eq!(fragmented_bytes.copy_buffer(2), vec![1, 2, 3]);
    fragmented_bytes.set_read_pos(3);
    let mut fragmented_bytes = fragmented_bytes.remaining_bytes();
    let expected_vector = vec![4, 5, 6, 7, 8, 11, 12, 13, 14, 15, 16, 17, 18];
    test_fragmented_byte_content(&mut fragmented_bytes, &expected_vector);

    assert_eq!(fragmented_bytes.copy_buffer(2), vec![4, 5, 6]);
    fragmented_bytes.set_read_pos(3);
    let mut fragmented_bytes = fragmented_bytes.remaining_bytes();
    let expected_vector = vec![7, 8, 11, 12, 13, 14, 15, 16, 17, 18];
    test_fragmented_byte_content(&mut fragmented_bytes, &expected_vector);

    assert_eq!(fragmented_bytes.copy_buffer(2), vec![7, 8, 11]);
    fragmented_bytes.set_read_pos(3);
    let mut fragmented_bytes = fragmented_bytes.remaining_bytes();
    let expected_vector = vec![12, 13, 14, 15, 16, 17, 18];
    test_fragmented_byte_content(&mut fragmented_bytes, &expected_vector);

    assert_eq!(fragmented_bytes.copy_buffer(0), vec![12]);
    fragmented_bytes.set_read_pos(1);
    let mut fragmented_bytes = fragmented_bytes.remaining_bytes();
    let expected_vector = vec![13, 14, 15, 16, 17, 18];
    test_fragmented_byte_content(&mut fragmented_bytes, &expected_vector);

    assert_eq!(fragmented_bytes.copy_buffer(3), vec![13, 14, 15, 16]);
    fragmented_bytes.set_read_pos(4);
    let mut fragmented_bytes = fragmented_bytes.remaining_bytes();
    let expected_vector = vec![17, 18];
    test_fragmented_byte_content(&mut fragmented_bytes, &expected_vector);
}

#[test]
fn fragment_counts_only_its_valid_bytes() {
    let bytes = Bytes::new(vec![1, 2, 3, 0, 0, 0], 3);
    assert_eq!(bytes.len(), 3);
    assert_eq!(bytes.buffer().len(), 6);
    assert_eq!(bytes.get(2), Some(3));
    assert_eq!(bytes.get(3), None);
    let rope = FragmentedBytes::new(vec![bytes, Bytes::new(vec![4, 9], 1)]);
    assert_eq!(rope.total_len(), 4);
    assert_eq!(rope.to_vec(), vec![1, 2, 3, 4]);
}

#[test]
fn fragment_cursor_moves_over_the_valid_bytes() {
    let mut bytes = Bytes::new(vec![10, 20, 30, 40], 3);
    assert!(!bytes.is_empty());
    assert_eq!(bytes.current_pos(), 0);
    assert_eq!(bytes.peek(), Some(10));
    assert_eq!(bytes.at(1), Some(20));
    assert_eq!(bytes.at(-1), Some(30));
    assert_eq!(bytes.at(-3), Some(10));
    assert_eq!(bytes.at(-4), None);
    assert_eq!(bytes.at(3), None);
    assert_eq!(bytes.bump(), Some(10));
    assert_eq!(bytes.current_pos(), 1);
    bytes.advance(-5);
    assert_eq!(bytes.current_pos(), 1);
    bytes.advance(1);
    assert_eq!(bytes.next(), Some(30));
    assert_eq!(bytes.next(), None);
    assert!(bytes.is_empty());
    assert_eq!(bytes.peek(), None);
}

#[test]
fn fragment_split_off_drops_the_front_of_the_buffer() {
    let mut bytes = Bytes::new(vec![1, 2, 3, 4, 5], 3);
    bytes.split_off(2);
    assert_eq!(bytes.buffer(), &vec![3, 4, 5]);
    assert_eq!(bytes.len(), 3);
    assert_eq!(bytes.get(0), Some(3));
}

#[test]
fn fragment_without_front_keeps_the_rest() {
    let bytes = Bytes::new(vec![1, 2, 3, 4, 5], 4);
    let rest = bytes.without_front(1);
    assert_eq!(rest.len(), 3);
    assert_eq!(rest.get(0), Some(2));
    assert_eq!(rest.get(2), Some(4));
    assert_eq!(rest.get(3), None);
}

#[test]
fn fragment_from_vector_and_default() {
    let bytes: Bytes = vec![7, 8].into();
    assert_eq!(bytes.len(), 2);
    assert_eq!(bytes.peek(), Some(7));
    let empty = Bytes::default();
    assert_eq!(empty.len(), 0);
    assert!(empty.is_empty());
}

#[test]
fn rope_push_extends_the_stream() {
    let mut rope = FragmentedBytes::default();
    assert_eq!(rope.total_len(), 0);
    rope.push_bytes(vec![1, 2].into());
    rope.push_bytes(Bytes::new(vec![], 0));
    rope.push_bytes(vec![3].into());
    assert_eq!(rope.total_len(), 3);
    assert_eq!(rope.read_pos(), 0);
    assert_eq!(rope.to_vec(), vec![1, 2, 3]);
}

#[test]
fn rope_advance_fails_beyond_the_end() {
    let mut rope = create_fragmented_bytes();
    assert!(rope.advance_read_pos(5));
    assert_eq!(rope.read_pos(), 5);
    assert!(!rope.advance_read_pos(12));
    assert_eq!(rope.read_pos(), 5);
    assert!(rope.advance_read_pos(11));
    assert_eq!(rope.read_pos(), 16);
    assert!(rope.advance_read_pos(0));
    assert!(!rope.advance_read_pos(1));
}

#[test]
fn rope_peek_at_reads_behind_the_cursor() {
    let mut rope = create_fragmented_bytes();
    assert_eq!(rope.peek_at(0), Some(1));
    assert_eq!(rope.peek_at(8), Some(11));
    assert_eq!(rope.peek_at(16), None);
    rope.set_read_pos(15);
    assert_eq!(rope.peek_at(0), Some(18));
    assert_eq!(rope.peek_at(1), None);
    assert_eq!(rope.byte_at(0), Some(1));
}

#[test]
fn rope_copy_of_len_is_the_reference_model() {
    let all = vec![1, 2, 3, 4, 5, 6, 7, 8, 11, 12, 13, 14, 15, 16, 17, 18];
    for pos in 0..=16usize {
        let mut rope = create_fragmented_bytes();
        rope.set_read_pos(pos);
        for len in 0..=17usize {
            let expected = if pos + len <= 16 { Some(all[pos..pos + len].to_vec()) } else { None };
            assert_eq!(rope.copy_buffer_of_len(len), expected);
            assert_eq!(rope.has_n_bytes(len), pos + len <= 16);
        }
        assert_eq!(rope.read_pos(), pos);
    }
}

#[test]
fn rope_copy_buffer_before_the_cursor_is_empty() {
    let mut rope = create_fragmented_bytes();
    rope.set_read_pos(4);
    assert_eq!(rope.copy_buffer(3), Vec::<u8>::new());
    assert_eq!(rope.copy_buffer(4), vec![5]);
}

#[test]
fn prune_at_a_fragment_boundary_and_at_the_end() {
    let mut rope = create_fragmented_bytes();
    rope.set_read_pos(8);
    let rope = rope.remaining_bytes();
    assert_eq!(rope.read_pos(), 0);
    assert_eq!(rope.total_len(), 8);
    assert_eq!(rope.to_vec(), vec![11, 12, 13, 14, 15, 16, 17, 18]);

    let mut rope = create_fragmented_bytes();
    rope.set_read_pos(16);
    let rope = rope.remaining_bytes();
    assert_eq!(rope.total_len(), 0);
    assert_eq!(rope.to_vec(), Vec::<u8>::new());
}

#[test]
fn take_remaining_leaves_an_empty_rope() {
    let mut rope = create_fragmented_bytes();
    rope.set_read_pos(14);
    let rest = rope.take_remaining();
    assert_eq!(rest.to_vec(), vec![17, 18]);
    assert_eq!(rest.read_pos(), 0);
    assert_eq!(rope.total_len(), 0);
    assert_eq!(rope.read_pos(), 0);
}

#[test]
fn fragment_copy_takes_both_ends() {
    let bytes = Bytes::new(vec![1, 2, 3, 4, 5], 2);
    assert_eq!(bytes.copy_buffer(1, 3), vec![2, 3, 4]);
    assert_eq!(bytes.copy_buffer(4, 4), vec![5]);
    assert_eq!(bytes.copy_buffer(0, 4), vec![1, 2, 3, 4, 5]);
}

#[test]
fn fragment_buffer_can_be_changed_in_place() {
    let mut bytes = Bytes::new(vec![1, 2, 3], 2);
    bytes.buffer_mut().push(9);
    bytes.buffer_mut()[0] = 7;
    assert_eq!(bytes.buffer(), &vec![7, 2, 3, 9]);
    assert_eq!(bytes.len(), 2);
    assert_eq!(bytes.peek(), Some(7));
}

#[test]
fn fragments_are_copied_one_by_one() {
    let mut rope = create_fragmented_bytes();
    rope.push_bytes(Bytes::new(vec![9, 9, 9], 1));
    rope.push_bytes(Bytes::default());
    rope.set_read_pos(5);
    assert_eq!(
        rope.to_fragments(),
        vec![
            vec![1, 2, 3, 4],
            vec![5, 6, 7, 8],
            vec![11, 12, 13, 14],
            vec![15, 16, 17, 18],
            vec![9],
            vec![]
        ]
    );
    assert_eq!(Bytes::new(vec![1, 2, 3], 2).to_vec(), vec![1, 2]);
    let pruned = rope.remaining_bytes();
    assert_eq!(
        pruned.to_fragments(),
        vec![vec![6, 7, 8], vec![11, 12, 13, 14], vec![15, 16, 17, 18], vec![9], vec![]]
    );
}
