use deet::word::{
    align_addr_to_word, byte_offset, extract_byte, patch, replace_byte, Patch, WORD_BYTES,
};

#[test]
fn align_rounds_down_to_a_multiple_of_eight() {
    assert_eq!(WORD_BYTES, 8);
    assert_eq!(align_addr_to_word(0), 0);
    assert_eq!(align_addr_to_word(7), 0);
    assert_eq!(align_addr_to_word(8), 8);
    assert_eq!(align_addr_to_word(0x1005), 0x1000);
    assert_eq!(align_addr_to_word(0x100f), 0x1008);
    assert_eq!(align_addr_to_word(u64::MAX), u64::MAX - 7);
}

#[test]
fn offset_is_the_rest_of_the_division() {
    assert_eq!(byte_offset(0), 0);
    assert_eq!(byte_offset(0x1005), 5);
    assert_eq!(byte_offset(0x100f), 7);
    assert_eq!(byte_offset(u64::MAX), 7);
    for addr in 0x4000u64..0x4020 {
        assert_eq!(align_addr_to_word(addr) + byte_offset(addr), addr);
    }
}

#[test]
fn extract_reads_the_byte_at_the_address() {
    let word = 0x1122_3344_5566_7788u64;
    assert_eq!(extract_byte(word, 0x1000), 0x88);
    assert_eq!(extract_byte(word, 0x1001), 0x77);
    assert_eq!(extract_byte(word, 0x1005), 0x33);
    assert_eq!(extract_byte(word, 0x1007), 0x11);
    assert_eq!(extract_byte(word, 0x1008), 0x88);
}

#[test]
fn replace_swaps_one_byte_only() {
    let word = 0x1122_3344_5566_7788u64;
    assert_eq!(replace_byte(word, 0x1000, 0xcc), 0x1122_3344_5566_77cc);
    assert_eq!(replace_byte(word, 0x1003, 0xcc), 0x1122_3344_cc66_7788);
    assert_eq!(replace_byte(word, 0x1007, 0xcc), 0xcc22_3344_5566_7788);
    assert_eq!(replace_byte(word, 0x1007, 0x00), 0x0022_3344_5566_7788);
    assert_eq!(replace_byte(0, 0x1002, 0xff), 0x0000_0000_00ff_0000);
}

#[test]
fn patching_and_restoring_gives_the_word_back() {
    let words = [0u64, u64::MAX, 0x1122_3344_5566_7788, 0xcccc_cccc_cccc_cccc, 0x8000_0000_0000_0001];
    for &word in words.iter() {
        for addr in 0x7fff_0000u64..0x7fff_0010 {
            for &val in [0xccu8, 0x00, 0xff, 0x5a].iter() {
                let orig = extract_byte(word, addr);
                let patched = replace_byte(word, addr, val);
                assert_eq!(extract_byte(patched, addr), val);
                assert_eq!(replace_byte(patched, addr, orig), word);
                for other in 0..8u64 {
                    if other != byte_offset(addr) {
                        assert_eq!(extract_byte(patched, other), extract_byte(word, other));
                    }
                }
            }
        }
    }
}

#[test]
fn patch_gives_address_word_and_displaced_byte_together() {
    assert_eq!(
        patch(0x1122_3344_5566_7788, 0x1003, 0xcc),
        Patch { start: 0x1000, word: 0x1122_3344_cc66_7788, displaced: 0x55 }
    );
    assert_eq!(
        patch(0x1122_3344_5566_7788, 0x1000, 0xcc),
        Patch { start: 0x1000, word: 0x1122_3344_5566_77cc, displaced: 0x88 }
    );
    assert_eq!(
        patch(0x1122_3344_5566_7788, 0x100f, 0x00),
        Patch { start: 0x1008, word: 0x0022_3344_5566_7788, displaced: 0x11 }
    );
    assert_eq!(patch(0, u64::MAX, 0xff), Patch {
        start: u64::MAX - 7,
        word: 0xff00_0000_0000_0000,
        displaced: 0
    });
    let once = patch(0x0102_0304_0506_0708, 0x2005, 0xcc);
    let back = patch(once.word, 0x2005, once.displaced);
    assert_eq!(back.word, 0x0102_0304_0506_0708);
    assert_eq!(back.displaced, 0xcc);
    assert_eq!(back.start, once.start);
}
