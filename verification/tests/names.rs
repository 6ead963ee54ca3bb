use file_splitter::chunks::calculate_num_chunks;
use file_splitter::naming::{count_digits, get_part_name};

fn names_of(base: &str, chunk_size: usize, file_size: usize) -> Vec<String> {
    let count = calculate_num_chunks(file_size, chunk_size);
    (0..count)
        .map(|index| get_part_name(base.to_string(), index, chunk_size, file_size))
        .collect()
}

#[test]
fn zero_has_no_digits() {
    assert_eq!(count_digits(0), 0);
}

#[test]
fn digits_are_counted_at_each_power_of_ten() {
    assert_eq!(count_digits(1), 1);
    assert_eq!(count_digits(9), 1);
    assert_eq!(count_digits(10), 2);
    assert_eq!(count_digits(99), 2);
    assert_eq!(count_digits(100), 3);
    assert_eq!(count_digits(999), 3);
    assert_eq!(count_digits(1000), 4);
    assert_eq!(count_digits(4294967295), 10);
}

#[test]
fn digits_of_the_largest_number() {
    assert_eq!(count_digits(usize::MAX), usize::MAX.to_string().len());
}

#[test]
fn part_name_is_padded_to_the_width_of_the_chunk_count() {
    // 100 bytes in chunks of 4: 25 chunks, two digits.
    assert_eq!(get_part_name("data.bin".to_string(), 0, 4, 100), "data.bin.00");
    assert_eq!(get_part_name("data.bin".to_string(), 3, 4, 100), "data.bin.03");
    assert_eq!(get_part_name("data.bin".to_string(), 24, 4, 100), "data.bin.24");
}

#[test]
fn part_name_with_four_digits() {
    // 1000 chunks of 2048 bytes.
    let file_size = 2048 * 1000;
    assert_eq!(get_part_name("name".to_string(), 0, 2048, file_size), "name.0000");
    assert_eq!(get_part_name("name".to_string(), 1, 2048, file_size), "name.0001");
    assert_eq!(get_part_name("name".to_string(), 999, 2048, file_size), "name.0999");
}

#[test]
fn part_name_of_a_single_chunk() {
    assert_eq!(get_part_name("a".to_string(), 0, 2048, 1), "a.0");
    assert_eq!(get_part_name("a".to_string(), 0, 2048, 2048), "a.0");
}

#[test]
fn part_name_of_an_empty_file_has_width_zero() {
    assert_eq!(get_part_name("a".to_string(), 0, 2048, 0), "a.0");
    assert_eq!(get_part_name("a".to_string(), 7, 2048, 0), "a.7");
}

#[test]
fn part_index_wider_than_the_width_is_written_in_full() {
    assert_eq!(get_part_name("f".to_string(), 123, 10, 10), "f.123");
    assert_eq!(get_part_name("f".to_string(), 1000, 1, 99), "f.1000");
}

#[test]
fn part_name_keeps_the_file_name_as_it_is() {
    assert_eq!(get_part_name(String::new(), 5, 1, 10), ".05");
    assert_eq!(get_part_name("archive.tar.gz".to_string(), 5, 1, 10), "archive.tar.gz.05");
    assert_eq!(get_part_name("na\u{ef}ve".to_string(), 5, 1, 10), "na\u{ef}ve.05");
}

#[test]
fn part_name_agrees_with_the_formatter() {
    for (chunk_size, file_size) in [(1usize, 0usize), (1, 9), (1, 10), (3, 1000), (7, 12345)] {
        let count = calculate_num_chunks(file_size, chunk_size);
        let width = count_digits(count);
        for index in [0usize, 1, 9, 10, 99, 100, 4321] {
            assert_eq!(
                get_part_name("x".to_string(), index, chunk_size, file_size),
                format!("x.{:0width$}", index, width = width)
            );
        }
    }
}

#[test]
fn part_names_sort_in_index_order_across_digit_widths() {
    for count in [1usize, 2, 9, 10, 11, 99, 100, 101, 999, 1000, 1001, 2500] {
        let names = names_of("part", 1, count);
        assert_eq!(names.len(), count);
        for index in 1..names.len() {
            assert!(names[index - 1] < names[index]);
            assert_eq!(names[index - 1].len(), names[index].len());
        }
        let mut sorted = names.clone();
        sorted.sort();
        assert_eq!(sorted, names);
    }
}

#[test]
fn part_names_sort_in_index_order_with_a_partial_last_chunk() {
    let names = names_of("movie.mkv", 2048, 2048 * 1000 + 1);
    assert_eq!(names.len(), 1001);
    assert_eq!(names[0], "movie.mkv.0000");
    assert_eq!(names[1000], "movie.mkv.1000");
    let mut sorted = names.clone();
    sorted.sort();
    assert_eq!(sorted, names);
}
