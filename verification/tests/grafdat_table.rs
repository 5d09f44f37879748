use openpol::grafdat::{get_image_rects, ITEMS};

/// Every entry of the table of sprites: the image, then the left, upper,
/// right and lower border of the region, the last two exclusive.
const TABLE: [(usize, (usize, usize, usize, usize)); 359] = [
    // Mouse cursor frames.
    (3, (11, 8, 27, 22)),
    (3, (27, 8, 43, 22)),
    (3, (43, 8, 59, 22)),
    (3, (59, 8, 75, 22)),
    (3, (75, 8, 91, 22)),
    (3, (91, 8, 107, 22)),
    (3, (107, 8, 123, 22)),
    (3, (123, 8, 139, 22)),
    (3, (139, 8, 155, 22)),
    (3, (155, 8, 171, 22)),
    (3, (171, 8, 187, 22)),
    (3, (187, 8, 203, 22)),
    // Buttons.
    (3, (11, 22, 27, 36)),
    (3, (27, 22, 43, 36)),
    (3, (43, 22, 59, 36)),
    (3, (59, 22, 75, 36)),
    (3, (75, 22, 91, 36)),
    (3, (91, 22, 107, 36)),
    (3, (107, 22, 123, 36)),
    (3, (123, 22, 139, 36)),
    (3, (139, 22, 155, 36)),
    (3, (155, 22, 171, 36)),
    (3, (171, 22, 187, 36)),
    (3, (187, 22, 203, 36)),
    (3, (203, 22, 219, 36)),
    (3, (219, 22, 235, 36)),
    (3, (251, 8, 267, 22)),
    (3, (235, 8, 251, 22)),
    // Growing trees.
    (3, (0, 0, 0, 0)),
    (3, (235, 22, 251, 36)),
    (3, (251, 22, 267, 36)),
    (3, (235, 36, 251, 50)),
    (3, (251, 36, 267, 50)),
    (3, (235, 50, 251, 64)),
    (3, (251, 50, 267, 64)),
    (3, (251, 64, 267, 78)),
    (3, (0, 0, 0, 0)),
    (3, (235, 78, 251, 92)),
    (3, (251, 78, 267, 92)),
    (3, (235, 92, 251, 106)),
    (3, (251, 92, 267, 106)),
    (3, (235, 106, 251, 120)),
    (3, (251, 106, 267, 120)),
    (3, (251, 120, 267, 134)),
    // Fallen units.
    (3, (219, 50, 235, 64)),
    (3, (219, 64, 235, 78)),
    (3, (219, 78, 235, 92)),
    // Units being hit.
    (3, (203, 8, 219, 21)),
    (3, (219, 8, 235, 21)),
    // Grass.
    (3, (11, 36, 27, 50)),
    (3, (27, 36, 43, 50)),
    (3, (43, 36, 59, 50)),
    (4, (303, 28, 319, 42)),
    (4, (303, 42, 319, 56)),
    (4, (303, 56, 319, 70)),
    (4, (303, 70, 319, 84)),
    (4, (303, 84, 319, 98)),
    (4, (303, 98, 319, 112)),
    // Rocks.
    (3, (11, 92, 27, 106)),
    (3, (27, 92, 43, 106)),
    (3, (43, 92, 59, 106)),
    (3, (59, 92, 75, 106)),
    (3, (75, 92, 91, 106)),
    (3, (91, 92, 107, 106)),
    (3, (107, 92, 123, 106)),
    (3, (123, 92, 139, 106)),
    (3, (139, 92, 155, 106)),
    (3, (155, 92, 171, 106)),
    (3, (171, 92, 187, 106)),
    (3, (187, 92, 203, 106)),
    (3, (203, 92, 219, 106)),
    // Dry earth.
    (3, (235, 134, 257, 152)),
    (3, (235, 153, 257, 171)),
    (3, (235, 172, 257, 190)),
    // Roads.
    (3, (59, 134, 75, 148)),
    (3, (75, 134, 91, 148)),
    (3, (91, 134, 107, 148)),
    (3, (107, 134, 123, 148)),
    (3, (123, 134, 139, 148)),
    (3, (139, 134, 155, 148)),
    (3, (155, 134, 171, 148)),
    (3, (171, 134, 187, 148)),
    (3, (187, 134, 203, 148)),
    (3, (203, 134, 219, 148)),
    (3, (11, 148, 27, 162)),
    (3, (27, 148, 43, 162)),
    (3, (43, 148, 59, 162)),
    (3, (59, 148, 75, 162)),
    (3, (75, 148, 91, 162)),
    (3, (91, 148, 107, 162)),
    (3, (107, 148, 123, 162)),
    (3, (123, 148, 139, 162)),
    (3, (139, 148, 155, 162)),
    (3, (155, 148, 171, 162)),
    (3, (171, 148, 187, 162)),
    // Bridges.
    (3, (11, 162, 27, 176)),
    (3, (27, 162, 43, 176)),
    (3, (43, 162, 59, 176)),
    (3, (59, 162, 75, 176)),
    (3, (75, 162, 91, 176)),
    (3, (91, 162, 107, 176)),
    (3, (107, 162, 123, 176)),
    (3, (123, 162, 139, 176)),
    // Gadgets.
    (3, (59, 36, 75, 50)),
    (3, (75, 36, 91, 50)),
    (3, (91, 36, 107, 50)),
    (3, (107, 36, 123, 50)),
    (3, (123, 36, 139, 50)),
    (3, (139, 36, 155, 50)),
    (3, (155, 36, 171, 50)),
    (3, (171, 36, 187, 50)),
    (3, (187, 36, 203, 50)),
    (3, (203, 36, 219, 50)),
    (3, (219, 36, 235, 50)),
    (3, (187, 148, 203, 162)),
    (3, (203, 148, 219, 162)),
    (3, (219, 148, 235, 162)),
    (3, (139, 162, 155, 176)),
    (3, (155, 162, 171, 176)),
    (3, (171, 162, 187, 176)),
    (3, (187, 162, 203, 176)),
    (3, (203, 162, 219, 176)),
    (3, (219, 162, 235, 176)),
    // Water.
    (3, (11, 50, 27, 64)),
    (3, (27, 50, 43, 64)),
    (3, (43, 50, 59, 64)),
    (3, (59, 50, 75, 64)),
    (3, (75, 50, 91, 64)),
    (3, (91, 50, 107, 64)),
    (3, (107, 50, 123, 64)),
    (3, (123, 50, 139, 64)),
    (3, (139, 50, 155, 64)),
    (3, (155, 50, 171, 64)),
    (3, (171, 50, 187, 64)),
    (3, (187, 50, 203, 64)),
    (3, (203, 50, 219, 64)),
    (3, (11, 64, 27, 78)),
    (3, (27, 64, 43, 78)),
    (3, (43, 64, 59, 78)),
    (3, (59, 64, 75, 78)),
    (3, (75, 64, 91, 78)),
    (3, (91, 64, 107, 78)),
    (3, (107, 64, 123, 78)),
    (3, (123, 64, 139, 78)),
    (3, (139, 64, 155, 78)),
    (3, (155, 64, 171, 78)),
    (3, (171, 64, 187, 78)),
    (3, (187, 64, 203, 78)),
    (3, (203, 64, 219, 78)),
    (3, (11, 78, 27, 92)),
    (3, (27, 78, 43, 92)),
    (3, (43, 78, 59, 92)),
    (3, (59, 78, 75, 92)),
    (3, (75, 78, 91, 92)),
    (3, (91, 78, 107, 92)),
    (3, (107, 78, 123, 92)),
    (3, (123, 78, 139, 92)),
    (3, (139, 78, 155, 92)),
    (3, (155, 78, 171, 92)),
    (3, (171, 78, 187, 92)),
    (3, (187, 78, 203, 92)),
    (3, (203, 78, 219, 92)),
    // Trees.
    (3, (11, 120, 43, 134)),
    (3, (43, 120, 75, 134)),
    (3, (75, 120, 107, 134)),
    (3, (107, 120, 139, 134)),
    (3, (139, 120, 171, 134)),
    (3, (171, 120, 203, 134)),
    (3, (203, 120, 235, 134)),
    (3, (11, 106, 43, 120)),
    (3, (43, 106, 75, 120)),
    (3, (75, 106, 107, 120)),
    (3, (107, 106, 139, 120)),
    (3, (139, 106, 171, 120)),
    (3, (171, 106, 203, 120)),
    (3, (203, 106, 235, 120)),
    // Buildings under construction.
    (7, (0, 168, 16, 182)),
    (7, (16, 168, 32, 182)),
    (7, (32, 168, 48, 182)),
    (7, (48, 168, 64, 182)),
    (7, (64, 168, 80, 182)),
    (7, (80, 168, 96, 182)),
    (7, (96, 168, 112, 182)),
    (7, (112, 168, 128, 182)),
    (7, (128, 168, 144, 182)),
    // The one-pixel entry.
    (3, (0, 0, 1, 1)),
    // Buildings.
    (7, (0, 84, 16, 98)),
    (7, (16, 84, 32, 98)),
    (7, (32, 84, 48, 98)),
    (7, (48, 84, 64, 98)),
    (7, (64, 84, 80, 98)),
    (7, (80, 84, 96, 98)),
    (7, (96, 84, 112, 98)),
    (7, (112, 84, 128, 98)),
    (7, (128, 84, 144, 98)),
    (7, (144, 84, 160, 98)),
    (7, (160, 84, 176, 98)),
    (7, (176, 84, 192, 98)),
    (7, (192, 84, 208, 98)),
    (7, (208, 84, 224, 98)),
    (7, (224, 84, 240, 98)),
    (7, (240, 84, 256, 98)),
    (7, (256, 84, 272, 98)),
    (7, (272, 84, 288, 98)),
    (7, (288, 84, 304, 98)),
    (7, (304, 84, 319, 98)),
    (7, (0, 98, 16, 112)),
    (7, (16, 98, 32, 112)),
    (7, (32, 98, 48, 112)),
    (7, (48, 98, 64, 112)),
    (7, (64, 98, 80, 112)),
    (7, (80, 98, 96, 112)),
    (7, (96, 98, 112, 112)),
    (7, (112, 98, 128, 112)),
    (7, (128, 98, 144, 112)),
    (7, (144, 98, 160, 112)),
    (7, (160, 98, 176, 112)),
    (7, (176, 98, 192, 112)),
    (7, (192, 98, 208, 112)),
    (7, (208, 98, 224, 112)),
    (7, (224, 98, 240, 112)),
    (7, (240, 98, 256, 112)),
    (7, (256, 98, 272, 112)),
    (7, (272, 98, 288, 112)),
    (7, (288, 98, 304, 112)),
    (7, (304, 98, 319, 112)),
    (7, (0, 112, 16, 126)),
    (7, (16, 112, 32, 126)),
    (7, (32, 112, 48, 126)),
    (7, (48, 112, 64, 126)),
    (7, (64, 112, 80, 126)),
    (7, (80, 112, 96, 126)),
    (7, (96, 112, 112, 126)),
    (7, (112, 112, 128, 126)),
    (7, (128, 112, 144, 126)),
    (7, (144, 112, 160, 126)),
    (7, (160, 112, 176, 126)),
    (7, (176, 112, 192, 126)),
    (7, (192, 112, 208, 126)),
    (7, (208, 112, 224, 126)),
    (7, (224, 112, 240, 126)),
    (7, (240, 112, 256, 126)),
    (7, (256, 112, 272, 126)),
    (7, (272, 112, 288, 126)),
    (7, (288, 112, 304, 126)),
    (7, (304, 112, 319, 126)),
    (7, (0, 126, 16, 140)),
    (7, (16, 126, 32, 140)),
    (7, (32, 126, 48, 140)),
    (7, (48, 126, 64, 140)),
    (7, (64, 126, 80, 140)),
    (7, (80, 126, 96, 140)),
    (7, (96, 126, 112, 140)),
    (7, (112, 126, 128, 140)),
    (7, (128, 126, 144, 140)),
    (7, (144, 126, 160, 140)),
    (7, (160, 126, 176, 140)),
    (7, (176, 126, 192, 140)),
    (7, (192, 126, 208, 140)),
    (7, (208, 126, 224, 140)),
    (7, (224, 126, 240, 140)),
    (7, (240, 126, 256, 140)),
    (7, (256, 126, 272, 140)),
    (7, (272, 126, 288, 140)),
    (7, (288, 126, 304, 140)),
    (7, (304, 126, 319, 140)),
    (7, (0, 140, 16, 154)),
    (7, (16, 140, 32, 154)),
    (7, (32, 140, 48, 154)),
    (7, (48, 140, 64, 154)),
    (7, (64, 140, 80, 154)),
    (7, (80, 140, 96, 154)),
    (7, (96, 140, 112, 154)),
    (7, (112, 140, 128, 154)),
    (7, (128, 140, 144, 154)),
    (7, (144, 140, 160, 154)),
    (7, (160, 140, 176, 154)),
    (7, (176, 140, 192, 154)),
    (7, (192, 140, 208, 154)),
    (7, (208, 140, 224, 154)),
    (7, (224, 140, 240, 154)),
    (7, (240, 140, 256, 154)),
    (7, (256, 140, 272, 154)),
    (7, (272, 140, 288, 154)),
    (7, (288, 140, 304, 154)),
    (7, (304, 140, 319, 154)),
    (7, (0, 154, 16, 168)),
    (7, (16, 154, 32, 168)),
    (7, (32, 154, 48, 168)),
    (7, (48, 154, 64, 168)),
    (7, (64, 154, 80, 168)),
    (7, (80, 154, 96, 168)),
    (7, (96, 154, 112, 168)),
    (7, (112, 154, 128, 168)),
    (7, (128, 154, 144, 168)),
    (7, (144, 154, 160, 168)),
    (7, (160, 154, 176, 168)),
    (7, (176, 154, 192, 168)),
    (7, (192, 154, 208, 168)),
    (7, (208, 154, 224, 168)),
    (7, (224, 154, 240, 168)),
    (7, (240, 154, 256, 168)),
    (7, (256, 154, 272, 168)),
    (7, (272, 154, 288, 168)),
    (7, (288, 154, 304, 168)),
    (7, (304, 154, 319, 168)),
    // Ruins.
    (7, (0, 182, 16, 196)),
    (7, (16, 182, 32, 196)),
    (7, (32, 182, 48, 196)),
    (7, (48, 182, 64, 196)),
    (7, (64, 182, 80, 196)),
    (7, (80, 182, 96, 196)),
    (7, (96, 182, 112, 196)),
    (7, (112, 182, 128, 196)),
    (7, (128, 182, 144, 196)),
    // Palisade.
    (4, (287, 0, 303, 14)),
    (4, (287, 14, 303, 28)),
    (4, (287, 28, 303, 42)),
    (4, (287, 42, 303, 56)),
    (4, (287, 56, 303, 70)),
    (4, (287, 70, 303, 84)),
    (4, (287, 84, 303, 98)),
    (4, (287, 98, 303, 112)),
    (4, (287, 112, 303, 126)),
    (4, (287, 126, 303, 140)),
    (4, (287, 140, 303, 154)),
    (4, (287, 154, 303, 168)),
    // Shields.
    (4, (303, 112, 319, 126)),
    (4, (303, 126, 319, 140)),
    (4, (303, 140, 319, 154)),
    (4, (303, 154, 319, 168)),
    // Healing.
    (4, (303, 0, 319, 14)),
    (4, (303, 14, 319, 28)),
    // Fire.
    (3, (11, 176, 27, 190)),
    (3, (27, 176, 43, 190)),
    (3, (43, 176, 59, 190)),
    (3, (59, 176, 75, 190)),
    (3, (75, 176, 91, 190)),
    (3, (91, 176, 107, 190)),
    (3, (107, 176, 123, 190)),
    (3, (123, 176, 139, 190)),
    (3, (139, 176, 155, 190)),
    (3, (155, 176, 171, 190)),
    (3, (171, 176, 187, 190)),
    (3, (187, 176, 203, 190)),
    (3, (203, 176, 219, 190)),
    (3, (219, 176, 235, 190)),
    // Borders.
    (3, (0, 0, 11, 197)),
    (3, (0, 0, 268, 8)),
    (3, (267, 0, 274, 199)),
    (3, (0, 190, 268, 199)),
    // Wood.
    (3, (272, 7, 276, 28)),
    (3, (278, 7, 310, 28)),
    (3, (299, 9, 314, 150)),
    // The second row of buttons.
    (7, (108, 142, 219, 160)),
    (7, (108, 114, 219, 132)),
    (3, (274, 38, 292, 54)),
    (3, (274, 58, 292, 74)),
    // The main menu screen.
    (2, (0, 0, 319, 199)),
];

#[test]
fn test_every_entry_of_the_table_of_sprites() {
    let rects = get_image_rects();
    assert_eq!(rects.len(), ITEMS);
    assert_eq!(rects.len(), TABLE.len());
    for (j, ((index, rect), expected)) in rects.iter().zip(TABLE.iter()).enumerate() {
        let (left, top, right, bottom) = expected.1;
        assert_eq!(*index, expected.0, "image of entry {}", j);
        assert_eq!(
            (rect.left, rect.top, rect.width, rect.height),
            (left, top, right - left, bottom - top),
            "region of entry {}",
            j
        );
    }
}
