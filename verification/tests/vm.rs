use minikernel::sys::vm::{PageDescriptor, TableDescriptor};

#[test]
fn table_descriptor_address_round_trips() {
    let mut t = TableDescriptor(0);
    t.set_address(0x12345);
    assert_eq!(t.0, 0x12345 << 12);
    assert_eq!(t.address(), 0x12345);
    assert_eq!(t.attributes(), 0);
}

#[test]
fn table_descriptor_fields_are_independent() {
    let mut t = TableDescriptor(0);
    t.set_attributes(0x1F);
    assert_eq!(t.0, 0x1F << 59);
    t.set_address(0xABCDE);
    assert_eq!(t.attributes(), 0x1F);
    assert_eq!(t.address(), 0xABCDE);
    t.set_attributes(0);
    assert_eq!(t.address(), 0xABCDE);
    assert_eq!(t.0, 0xABCDE << 12);
}

#[test]
fn setters_cut_values_to_field_width() {
    let mut t = TableDescriptor(0);
    t.set_address(u64::MAX);
    assert_eq!(t.address(), 0xF_FFFF_FFFF);
    assert_eq!(t.0, 0x0000_FFFF_FFFF_F000);
    let mut p = PageDescriptor(0);
    p.set_upper_attributes(0xFF);
    assert_eq!(p.upper_attributes(), 0x1F);
}

#[test]
fn page_descriptor_reads_its_fields() {
    let p = PageDescriptor(0xF800_1234_5678_9ABC);
    assert_eq!(p.lower_attributes(), (0x9ABC >> 2) & 0x3FF);
    assert_eq!(p.address(), 0x1234_5678_9);
    assert_eq!(p.upper_attributes(), 0x1F);
}

#[test]
fn page_descriptor_setters_keep_other_bits() {
    let mut p = PageDescriptor(u64::MAX);
    p.set_lower_attributes(0);
    assert_eq!(p.0, u64::MAX & !0xFFC);
    p.set_address(0);
    assert_eq!(p.address(), 0);
    assert_eq!(p.upper_attributes(), 0x1F);
    assert_eq!(p.0 & 0b11, 0b11);
    p.set_upper_attributes(0x05);
    assert_eq!(p.upper_attributes(), 0x05);
    assert_eq!(p.lower_attributes(), 0);
}
