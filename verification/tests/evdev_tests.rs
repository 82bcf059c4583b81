use keyforge::evdev::{
    abs_setup, eviocgabs, eviocgbit, io_u, ioc, ior, iow, is_event_node, is_wanted_device,
    set_bits, virtual_setup, InputAbsInfo, InputId, UinputSetup, ABS_CNT, EVIOCGID, EVIOCGRAB,
    KEY_CNT, UI_ABS_SETUP, UI_DEV_CREATE, UI_DEV_DESTROY, UI_DEV_SETUP, UI_SET_ABSBIT,
    UI_SET_EVBIT, UI_SET_KEYBIT,
};

#[test]
fn request_numbers() {
    assert_eq!(ioc(2, b'E', 0x02, 8), 0x8008_4502);
    assert_eq!(ioc(3, 0xff, 0xff, 0xff), 0xc0ff_ffff);
    assert_eq!(ioc(5, 1, 2, 3), 0x4003_0102);
    assert_eq!(io_u(b'U', 1), 0x5501);
    assert_eq!(ior(b'E', 0x40, 24), 0x8018_4540);
    assert_eq!(iow(b'E', 0x90, 4), 0x4004_4590);
    // EVIOCGBIT(EV_KEY, 96) and EVIOCGBIT(EV_ABS, 8).
    assert_eq!(eviocgbit(1, 96), 0x8060_4521);
    assert_eq!(eviocgbit(3, 8), 0x8008_4523);
    // EVIOCGABS(ABS_X) and EVIOCGABS(ABS_RZ).
    assert_eq!(eviocgabs(0), 0x8018_4540);
    assert_eq!(eviocgabs(5), 0x8018_4545);
}

#[test]
fn request_constants_are_their_encodings() {
    assert_eq!(EVIOCGID, ior(b'E', 0x02, 8));
    assert_eq!(EVIOCGRAB, iow(b'E', 0x90, 4));
    assert_eq!(UI_DEV_CREATE, io_u(b'U', 1));
    assert_eq!(UI_DEV_DESTROY, io_u(b'U', 2));
    assert_eq!(UI_DEV_SETUP, iow(b'U', 3, 92));
    assert_eq!(UI_ABS_SETUP, iow(b'U', 4, 28));
    assert_eq!(UI_SET_EVBIT, iow(b'U', 100, 4));
    assert_eq!(UI_SET_KEYBIT, iow(b'U', 101, 4));
    assert_eq!(UI_SET_ABSBIT, iow(b'U', 103, 4));
}

#[test]
fn bitmaps_give_the_codes_that_are_set() {
    let mut keys = vec![0u8; KEY_CNT.div_ceil(8)];
    keys[0x130 / 8] |= 1 << (0x130 % 8);
    keys[0x131 / 8] |= 1 << (0x131 % 8);
    keys[0] |= 1;
    keys[95] |= 0x80;
    assert_eq!(set_bits(&keys, KEY_CNT), vec![0, 0x130, 0x131, 767]);
    let abs = vec![0b0011_1111u8, 0, 0, 0, 0, 0, 0, 0x80];
    assert_eq!(set_bits(&abs, ABS_CNT), vec![0, 1, 2, 3, 4, 5, 63]);
    assert_eq!(set_bits(&abs, 3), vec![0, 1, 2]);
    assert_eq!(set_bits(&[], 0), Vec::<usize>::new());
}

#[test]
fn stick_axes_are_widened_others_kept() {
    let info = InputAbsInfo { value: 128, minimum: 0, maximum: 255, fuzz: 4, flat: 15, resolution: 2 };
    for code in [0u32, 1, 3, 4] {
        let s = abs_setup(code, info);
        assert_eq!(s.code, code as u16);
        assert_eq!(
            s.absinfo,
            InputAbsInfo { value: 128, minimum: -32767, maximum: 32767, fuzz: 0, flat: 0, resolution: 2 }
        );
    }
    for code in [2u32, 5, 16, 63] {
        let s = abs_setup(code, info);
        assert_eq!(s.code, code as u16);
        assert_eq!(s.absinfo, info);
    }
}

#[test]
fn the_virtual_controller_identity() {
    let s = virtual_setup(0x054c);
    assert_eq!(s.id, InputId { bustype: 3, vendor: 0x054c, product: 0x02d1, version: 1 });
    let label = b"KeyForge Virtual Controller";
    assert_eq!(&s.name[..label.len()], &label[..]);
    assert!(s.name[label.len()..].iter().all(|&b| b == 0));
    assert_eq!(s.ff_effects_max, 0);
    let d = UinputSetup::default();
    assert_eq!(d.id, InputId::default());
    assert!(d.name.iter().all(|&b| b == 0));
}

#[test]
fn device_discovery_predicates() {
    let c = |s: &str| s.chars().collect::<Vec<char>>();
    assert!(is_event_node(&c("event0")));
    assert!(is_event_node(&c("event12")));
    assert!(is_event_node(&c("event")));
    assert!(!is_event_node(&c("mouse0")));
    assert!(!is_event_node(&c("even")));
    assert!(!is_event_node(&c("js0")));
    let id = InputId { bustype: 3, vendor: 0x045e, product: 0x028e, version: 0x110 };
    assert!(is_wanted_device(id, 0x045e, 0x028e));
    assert!(!is_wanted_device(id, 0x045e, 0x028f));
    assert!(!is_wanted_device(id, 0x054c, 0x028e));
}
