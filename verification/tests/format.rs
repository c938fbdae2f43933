use cactus::human::{human_size, GIB, KIB, MIB};

/// What a division in double precision, printed to a fixed number of
/// places, gives for a byte count.
fn printed_by_floats(bytes: u64) -> String {
    if bytes >= GIB {
        format!("{:.1} GiB", bytes as f64 / GIB as f64)
    } else if bytes >= MIB {
        format!("{:.1} MiB", bytes as f64 / MIB as f64)
    } else if bytes >= KIB {
        format!("{:.0} KiB", bytes as f64 / KIB as f64)
    } else {
        format!("{bytes} B")
    }
}

#[test]
fn human_size_formats() {
    assert_eq!(human_size(500), "500 B");
    assert_eq!(human_size(2048), "2 KiB");
    assert_eq!(human_size(5 * 1024 * 1024), "5.0 MiB");
    assert_eq!(human_size(3 * 1024 * 1024 * 1024), "3.0 GiB");
}

#[test]
fn human_size_of_small_counts_is_in_bytes() {
    assert_eq!(human_size(0), "0 B");
    assert_eq!(human_size(1), "1 B");
    assert_eq!(human_size(9), "9 B");
    assert_eq!(human_size(10), "10 B");
    assert_eq!(human_size(1023), "1023 B");
}

#[test]
fn human_size_changes_unit_at_each_power_of_1024() {
    assert_eq!(human_size(1024), "1 KiB");
    assert_eq!(human_size(1024 * 1024 - 1), "1024 KiB");
    assert_eq!(human_size(1024 * 1024), "1.0 MiB");
    assert_eq!(human_size(1024 * 1024 * 1024 - 1), "1024.0 MiB");
    assert_eq!(human_size(1024 * 1024 * 1024), "1.0 GiB");
    assert_eq!(human_size(1024 * 1024 * 1024 * 1024), "1024.0 GiB");
}

#[test]
fn human_size_rounds_to_nearest() {
    assert_eq!(human_size(1024 + 511), "1 KiB");
    assert_eq!(human_size(1024 + 513), "2 KiB");
    assert_eq!(human_size(MIB + MIB / 10), "1.1 MiB");
    assert_eq!(human_size(MIB + MIB / 25), "1.0 MiB");
    assert_eq!(human_size(MIB + MIB / 16), "1.1 MiB");
    assert_eq!(human_size(7 * GIB + 999 * MIB), "8.0 GiB");
}

#[test]
fn human_size_rounds_ties_to_even() {
    assert_eq!(human_size(1024 + 512), "2 KiB");
    assert_eq!(human_size(2 * 1024 + 512), "2 KiB");
    assert_eq!(human_size(3 * 1024 + 512), "4 KiB");
    assert_eq!(human_size(GIB + GIB / 4), "1.2 GiB");
    assert_eq!(human_size(GIB + 3 * (GIB / 4)), "1.8 GiB");
    assert_eq!(human_size(MIB + MIB / 4), "1.2 MiB");
    assert_eq!(human_size(2 * MIB + 3 * (MIB / 4)), "2.8 MiB");
}

#[test]
fn human_size_of_the_largest_count() {
    assert_eq!(human_size(u64::MAX), "17179869184.0 GiB");
    assert_eq!(human_size(u64::MAX), printed_by_floats(u64::MAX));
}

#[test]
fn human_size_agrees_with_float_printing_near_unit_changes() {
    for centre in [KIB, MIB, GIB, 1u64 << 40, 1u64 << 50, 1u64 << 53, 1u64 << 54, 1u64 << 63] {
        for offset in 0..2000u64 {
            let above = centre.saturating_add(offset);
            let below = centre - offset.min(centre);
            assert_eq!(human_size(above), printed_by_floats(above), "{above}");
            assert_eq!(human_size(below), printed_by_floats(below), "{below}");
        }
    }
}

#[test]
fn human_size_agrees_with_float_printing_on_ties() {
    for unit in [KIB, MIB, GIB] {
        for k in 0..4000u64 {
            let tie_of_whole = k * unit + unit / 2;
            let tie_of_tenth = k * (unit / 4) + unit / 4;
            assert_eq!(human_size(tie_of_whole), printed_by_floats(tie_of_whole), "{tie_of_whole}");
            assert_eq!(human_size(tie_of_tenth), printed_by_floats(tie_of_tenth), "{tie_of_tenth}");
        }
    }
}

#[test]
fn human_size_agrees_with_float_printing_on_scattered_counts() {
    let mut state: u64 = 0x9e37_79b9_7f4a_7c15;
    for round in 0..200_000u32 {
        state ^= state << 13;
        state ^= state >> 7;
        state ^= state << 17;
        let bytes = state >> (round % 64);
        assert_eq!(human_size(bytes), printed_by_floats(bytes), "{bytes}");
    }
}

#[test]
fn human_size_agrees_with_float_printing_beyond_exact_doubles() {
    let limit = 1u64 << 53;
    for k in 0..3000u64 {
        for bytes in [
            limit + k,
            limit * 2 + k,
            limit * 4 + 2 * k + 1,
            (1u64 << 60) + k * 128 + 127,
            (1u64 << 63) + k * 1024 + 1023,
            (1u64 << 63) + k * 1024 + 1024,
            u64::MAX - k,
            k * ((1u64 << 28) / 5 * 5 + 3) + (1 << 62),
        ] {
            assert_eq!(human_size(bytes), printed_by_floats(bytes), "{bytes}");
        }
    }
}
