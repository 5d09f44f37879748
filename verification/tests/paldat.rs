use openpol::paldat::{Paldat, PALETTE_SIZE_IN_BYTES};

#[test]
fn test_paldat_loading_works() {
    let data: Vec<u8> = (0..(768 as u16 * 2)).map(|v| (v >> 3) as u8).collect();
    let paldat = Paldat::load(&data[..]).unwrap();
    assert_eq!(paldat.palettes(), 2);
    assert_eq!(paldat.palette_data(0), &data[0..768]);
    assert_eq!(paldat.palette_data(1), &data[768..768 * 2]);
}

#[test]
fn test_paldat_of_partial_palettes_is_an_error() {
    for len in [1, 3, 767, 769, 1535, 1537] {
        let data = vec![0; len];
        assert!(Paldat::load(&data[..]).is_none());
    }
}

#[test]
fn test_paldat_without_palettes() {
    let paldat = Paldat::load(&[][..]).unwrap();
    assert_eq!(paldat.palettes(), 0);
}

#[test]
fn test_paldat_keeps_all_eight_bits() {
    let mut data = vec![0; 3 * PALETTE_SIZE_IN_BYTES];
    data[2 * PALETTE_SIZE_IN_BYTES + 5] = 255;
    let paldat = Paldat::load(&data[..]).unwrap();
    assert_eq!(paldat.palettes(), 3);
    assert_eq!(paldat.palette_data(2).len(), PALETTE_SIZE_IN_BYTES);
    assert_eq!(paldat.palette_data(2)[5], 255);
    assert_eq!(paldat.palette_data(1)[5], 0);
}
