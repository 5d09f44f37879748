use openpol::ppm::{write_decimal, write_ppm};
use std::str;

#[test]
fn test_write_ppm_works() {
    let data = [255, 0, 0, 0, 0, 0, 0, 0, 0, 0, 0, 0, 0, 0, 0, 255, 255, 255];
    let mut buffer = Vec::new();
    write_ppm(3, 2, &data, &mut buffer);
    let got = str::from_utf8(&buffer).unwrap();
    let expected = "P3
3 2
255
255 0 0 0 0 0 0 0 0 
0 0 0 0 0 0 255 255 255 
";
    assert_eq!(got, expected);
}

#[test]
fn test_write_ppm_without_pixels() {
    let mut buffer = Vec::new();
    write_ppm(0, 0, &[], &mut buffer);
    assert_eq!(str::from_utf8(&buffer).unwrap(), "P3\n0 0\n255\n");
    let mut buffer = Vec::new();
    write_ppm(0, 2, &[], &mut buffer);
    assert_eq!(str::from_utf8(&buffer).unwrap(), "P3\n0 2\n255\n\n\n");
}

#[test]
fn test_write_ppm_ignores_what_follows_the_pixels() {
    let data = [1, 20, 105, 9, 9];
    let mut buffer = Vec::new();
    write_ppm(1, 1, &data, &mut buffer);
    assert_eq!(str::from_utf8(&buffer).unwrap(), "P3\n1 1\n255\n1 20 105 \n");
}

#[test]
fn test_write_decimal_works() {
    for n in [0, 7, 9, 10, 11, 99, 100, 255, 1024, 990_000] {
        let mut buffer = Vec::new();
        write_decimal(&mut buffer, n);
        assert_eq!(str::from_utf8(&buffer).unwrap(), format!("{}", n));
    }
}
