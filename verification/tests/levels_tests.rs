use deepzoom_pano::levels::{half_count, levels_for, log_2, num_bits, tile_count};

#[test]
fn levels_for_small_values() {
    assert_eq!(levels_for(1), 1);
    assert_eq!(levels_for(2), 2);
    assert_eq!(levels_for(3), 3);
    assert_eq!(levels_for(4), 3);
    assert_eq!(levels_for(5), 4);
    assert_eq!(levels_for(512), 10);
    assert_eq!(levels_for(513), 11);
}

#[test]
fn levels_for_powers_of_two() {
    let mut k: usize = 0;
    while k < 40 {
        assert_eq!(levels_for(1usize << k), k + 1);
        k += 1;
    }
}

#[test]
fn levels_for_between_powers_of_two() {
    let mut k: usize = 1;
    while k < 40 {
        let low: usize = 1usize << k;
        let high: usize = 1usize << (k + 1);
        assert_eq!(levels_for(low + 1), k + 2);
        assert_eq!(levels_for(high - 1), k + 2);
        assert_eq!(levels_for(low + low / 2), k + 2);
        k += 1;
    }
}

#[test]
fn levels_for_largest_value() {
    let bits: usize = num_bits::<usize>();
    assert_eq!(levels_for(usize::MAX), bits + 1);
}

#[test]
fn log_2_rounds_down() {
    assert_eq!(log_2(1), 0);
    assert_eq!(log_2(2), 1);
    assert_eq!(log_2(3), 1);
    assert_eq!(log_2(4), 2);
    assert_eq!(log_2(7), 2);
    assert_eq!(log_2(8), 3);
    assert_eq!(log_2(1023), 9);
    assert_eq!(log_2(1024), 10);
    assert_eq!(log_2(usize::MAX), num_bits::<usize>() - 1);
}

#[test]
fn num_bits_of_integer_types() {
    assert_eq!(num_bits::<u8>(), 8);
    assert_eq!(num_bits::<u16>(), 16);
    assert_eq!(num_bits::<u32>(), 32);
    assert_eq!(num_bits::<u64>(), 64);
    assert_eq!(num_bits::<()>(), 0);
}

#[test]
fn tile_count_rounds_up() {
    assert_eq!(tile_count(0, 512), 0);
    assert_eq!(tile_count(1, 512), 1);
    assert_eq!(tile_count(512, 512), 1);
    assert_eq!(tile_count(513, 512), 2);
    assert_eq!(tile_count(600, 512), 2);
    assert_eq!(tile_count(1024, 512), 2);
    assert_eq!(tile_count(1025, 512), 3);
    assert_eq!(tile_count(usize::MAX, 1), usize::MAX);
}

#[test]
fn half_count_rounds_up() {
    assert_eq!(half_count(0), 0);
    assert_eq!(half_count(1), 1);
    assert_eq!(half_count(2), 1);
    assert_eq!(half_count(3), 2);
    assert_eq!(half_count(4), 2);
    assert_eq!(half_count(5), 3);
    assert_eq!(half_count(usize::MAX), usize::MAX / 2 + 1);
}

#[test]
fn halving_down_the_levels_ends_in_one_tile() {
    let sides: Vec<usize> = vec![1, 2, 3, 5, 511, 512, 513, 1000, 4096, 100_000];
    for side in sides {
        let levels: usize = levels_for(side);
        let mut count: usize = tile_count(side, 512);
        let mut level: usize = levels - 1;
        while level > 0 {
            count = half_count(count);
            level -= 1;
        }
        assert_eq!(count, 1);
        // with tiles of one pixel no level is to spare
        let mut fine: usize = side;
        let mut steps: usize = 0;
        while fine > 1 {
            fine = half_count(fine);
            steps += 1;
        }
        assert_eq!(steps + 1, levels);
    }
}
