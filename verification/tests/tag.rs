use serder::{Tag, BIT_STRING, BOOLEAN, INTEGER, NULL, OBJECT_IDENTIFIER, OCTET_STRING};

#[test]
fn tag_composition() {
    assert_eq!(Tag::new(5).universal().primitive().into_tag_value(), 0x05);
    assert_eq!(
        Tag::new(5).universal().primitive().constructed().into_tag_value(),
        0x25
    );
    assert_eq!(
        Tag::new(5).universal().context_specific().into_tag_value() >> 6,
        0b10
    );
    assert_eq!(Tag::new(5).universal().context_specific().into_tag_value(), 0x85);
}

#[test]
fn tag_new_keeps_the_octet() {
    assert_eq!(Tag::new(0).into_tag_value(), 0);
    assert_eq!(Tag::new(31).into_tag_value(), 31);
    assert_eq!(Tag::new(0xFF).into_tag_value(), 0xFF);
}

#[test]
fn tag_classes() {
    assert_eq!(Tag::new(0x1F).universal().into_tag_value(), 0x1F);
    assert_eq!(Tag::new(0x1F).application().into_tag_value(), 0x5F);
    assert_eq!(Tag::new(0x1F).context_specific().into_tag_value(), 0x9F);
    assert_eq!(Tag::new(0x1F).private().into_tag_value(), 0xDF);
    assert_eq!(Tag::new(0xFF).universal().into_tag_value(), 0x3F);
    assert_eq!(Tag::new(0).private().into_tag_value(), 0xC0);
}

#[test]
fn tag_last_class_wins() {
    assert_eq!(Tag::new(3).private().universal().into_tag_value(), 0x03);
    assert_eq!(Tag::new(3).private().application().into_tag_value(), 0x43);
    assert_eq!(Tag::new(3).application().context_specific().into_tag_value(), 0x83);
    assert_eq!(Tag::new(3).universal().private().into_tag_value(), 0xC3);
}

#[test]
fn tag_forms() {
    assert_eq!(Tag::new(0x10).constructed().into_tag_value(), 0x30);
    assert_eq!(Tag::new(0x30).primitive().into_tag_value(), 0x10);
    assert_eq!(Tag::new(0x10).constructed().primitive().into_tag_value(), 0x10);
    assert_eq!(Tag::new(0x10).primitive().constructed().into_tag_value(), 0x30);
    assert_eq!(Tag::new(0xFF).primitive().into_tag_value(), 0xDF);
}

#[test]
fn tag_class_and_form_in_either_order() {
    let mut octet: u16 = 0;
    while octet < 256 {
        let o = octet as u8;
        assert_eq!(
            Tag::new(o).application().constructed().into_tag_value(),
            Tag::new(o).constructed().application().into_tag_value()
        );
        assert_eq!(
            Tag::new(o).private().primitive().into_tag_value(),
            Tag::new(o).primitive().private().into_tag_value()
        );
        assert_eq!(
            Tag::new(o).context_specific().constructed().into_tag_value() & 0x1F,
            o & 0x1F
        );
        octet += 1;
    }
}

#[test]
fn tag_constants() {
    assert_eq!(BOOLEAN, 0x01);
    assert_eq!(INTEGER, 0x02);
    assert_eq!(BIT_STRING, 0x03);
    assert_eq!(OCTET_STRING, 0x04);
    assert_eq!(NULL, 0x05);
    assert_eq!(OBJECT_IDENTIFIER, 0x06);
    assert_eq!(BOOLEAN, Tag::new(1).universal().primitive().into_tag_value());
    assert_eq!(INTEGER, Tag::new(2).universal().primitive().into_tag_value());
    assert_eq!(BIT_STRING, Tag::new(3).universal().primitive().into_tag_value());
    assert_eq!(OCTET_STRING, Tag::new(4).universal().primitive().into_tag_value());
    assert_eq!(NULL, Tag::new(5).universal().primitive().into_tag_value());
    assert_eq!(
        OBJECT_IDENTIFIER,
        Tag::new(6).universal().primitive().into_tag_value()
    );
}
