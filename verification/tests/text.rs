use ogtp::text::{
    byte_list_text, decimal_text, hexadecimal4_text, hexadecimal_text, with_item_text,
    with_number, with_two_numbers,
};

#[test]
fn numbers_are_written_without_leading_zeroes() {
    assert_eq!(decimal_text(0), "0");
    assert_eq!(decimal_text(1_203), "1203");
    assert_eq!(decimal_text(u64::MAX), format!("{}", u64::MAX));
    assert_eq!(hexadecimal_text(0), "0");
    assert_eq!(hexadecimal_text(0x00ab_c0d1), "abc0d1");
    assert_eq!(hexadecimal_text(u64::MAX), format!("{:x}", u64::MAX));
    assert_eq!(hexadecimal4_text(0x2a), "002a");
    assert_eq!(hexadecimal4_text(u16::MAX), "ffff");
}

#[test]
fn messages_are_put_together_in_order() {
    assert_eq!(with_number("a ", 7, " b"), "a 7 b");
    assert_eq!(with_two_numbers("<", 1, ",", 20, ">"), "<1,20>");
    assert_eq!(byte_list_text(&[1, 2, 255]), format!("{:?}", [1, 2, 255]));
    assert_eq!(byte_list_text(&[]), "[]");
    let list = with_item_text(String::new(), true, "PacketInfo");
    let same = with_item_text(list.clone(), false, "UdpGro");
    assert_eq!(list, same);
}
