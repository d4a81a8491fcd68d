use tilesheets::manager::{Manager, ScanOutcome};
use tilesheets::sheet::LayerError;
use tilesheets::pos::TilePos;
use tilesheets::raster::Raster;
use tilesheets::sheet::Sheet;

fn n(s: &str) -> Vec<char> {
    s.chars().collect()
}

fn solid(size: u32, value: u32) -> Raster {
    Raster { width: size, height: size, pixels: vec![value; (size * size) as usize] }
}

#[test]
fn first_insert_makes_one_minimal_layer() {
    let mut sheet = Sheet::new(16);
    sheet.insert(TilePos { x: 0, y: 0, z: 0 }, &solid(16, 0xff0000ff));
    assert_eq!(sheet.layers.len(), 1);
    assert_eq!(sheet.layers[0].width, 16);
    assert_eq!(sheet.layers[0].height, 16);
    assert_eq!(sheet.layers[0].get(3, 3), 0xff0000ff);
}

#[test]
fn growth_preserves_previous_pixels() {
    let mut sheet = Sheet::new(2);
    let a = Raster { width: 2, height: 2, pixels: vec![1, 2, 3, 4] };
    sheet.insert(TilePos { x: 0, y: 0, z: 0 }, &a);
    let b = solid(2, 9);
    sheet.insert(TilePos { x: 2, y: 1, z: 0 }, &b);
    let layer = &sheet.layers[0];
    assert_eq!(layer.width, 6);
    assert_eq!(layer.height, 4);
    // The first tile's pixels sit untouched at their original coordinates.
    assert_eq!(layer.get(0, 0), 1);
    assert_eq!(layer.get(1, 0), 2);
    assert_eq!(layer.get(0, 1), 3);
    assert_eq!(layer.get(1, 1), 4);
    // The second tile landed in its cell.
    assert_eq!(layer.get(4, 2), 9);
    assert_eq!(layer.get(5, 3), 9);
    // Newly exposed area outside both cells is blank.
    assert_eq!(layer.get(3, 0), 0);
    assert_eq!(layer.get(0, 3), 0);
}

#[test]
fn inserting_twice_overwrites_in_place() {
    let mut sheet = Sheet::new(2);
    sheet.insert(TilePos { x: 1, y: 1, z: 0 }, &solid(2, 5));
    sheet.insert(TilePos { x: 1, y: 1, z: 0 }, &solid(2, 8));
    let layer = &sheet.layers[0];
    assert_eq!(layer.width, 4);
    assert_eq!(layer.height, 4);
    assert_eq!(layer.get(2, 2), 8);
    assert_eq!(layer.get(3, 3), 8);
}

#[test]
fn next_layer_is_appended_on_demand() {
    let mut sheet = Sheet::new(2);
    sheet.insert(TilePos { x: 0, y: 0, z: 0 }, &solid(2, 1));
    sheet.insert(TilePos { x: 0, y: 0, z: 1 }, &solid(2, 2));
    assert_eq!(sheet.layers.len(), 2);
    assert_eq!(sheet.layers[0].get(0, 0), 1);
    assert_eq!(sheet.layers[1].get(0, 0), 2);
}

#[test]
fn end_to_end_two_tiles_on_one_sheet() {
    // A family with one size (16) and no prior tiles: two local tiles get
    // the first two spiral cells and both land on one 16-multiple raster.
    let mut m = Manager::new(Vec::new());
    assert_eq!(m.observe_local(&n("tile1")), ScanOutcome::Added);
    assert_eq!(m.observe_local(&n("tile2")), ScanOutcome::Added);
    assert_eq!(m.added, vec![n("tile1"), n("tile2")]);
    let mut sheet = Sheet::new(16);
    let p1 = m.lookup(n("tile1"));
    sheet.insert(p1, &solid(16, 0x11111111));
    let p2 = m.lookup(n("tile2"));
    sheet.insert(p2, &solid(16, 0x22222222));
    assert_eq!(p1, TilePos { x: 0, y: 0, z: 0 });
    assert_eq!(p2, TilePos { x: 0, y: 1, z: 0 });
    assert_eq!(sheet.layers.len(), 1);
    let layer = &sheet.layers[0];
    assert_eq!(layer.width % 16, 0);
    assert_eq!(layer.height % 16, 0);
    assert_eq!(layer.get(0, 0), 0x11111111);
    assert_eq!(layer.get(15, 15), 0x11111111);
    assert_eq!(layer.get(0, 16), 0x22222222);
    assert_eq!(layer.get(15, 31), 0x22222222);
}

#[test]
fn load_layer_round_trips_encoded_pixels() {
    // Encode a small image and let the sheet decode it back: the loaded
    // layer must carry the encoded pixels, not the raw bytes.
    let mut img = image::RgbaImage::new(4, 4);
    for y in 0..4u32 {
        for x in 0..4u32 {
            img.put_pixel(x, y, image::Rgba([x as u8 * 10, y as u8 * 10, 7, 255]));
        }
    }
    let mut bytes: Vec<u8> = Vec::new();
    img.write_to(&mut std::io::Cursor::new(&mut bytes), image::ImageFormat::Png).unwrap();
    let mut sheet = Sheet::new(2);
    assert_eq!(sheet.load_layer(&bytes), Ok(()));
    assert_eq!(sheet.layers.len(), 1);
    let layer = &sheet.layers[0];
    assert_eq!(layer.width, 4);
    assert_eq!(layer.height, 4);
    let expect = |x: u32, y: u32| -> u32 {
        u32::from_le_bytes([x as u8 * 10, y as u8 * 10, 7, 255])
    };
    assert_eq!(layer.get(0, 0), expect(0, 0));
    assert_eq!(layer.get(3, 1), expect(3, 1));
    assert_eq!(layer.get(2, 3), expect(2, 3));
}

#[test]
fn load_layer_refuses_misaligned_and_garbage() {
    let img = image::RgbaImage::new(5, 4);
    let mut bytes: Vec<u8> = Vec::new();
    img.write_to(&mut std::io::Cursor::new(&mut bytes), image::ImageFormat::Png).unwrap();
    let mut sheet = Sheet::new(2);
    assert_eq!(sheet.load_layer(&bytes), Err(LayerError::Misaligned));
    assert_eq!(sheet.load_layer(&[1, 2, 3]), Err(LayerError::Undecodable));
    assert_eq!(sheet.layers.len(), 0);
}
