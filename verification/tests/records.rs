use vox_format::default_palette::{default_palette, rgba_color, DEFAULT_RGBA};
use vox_format::image::RgbaImage;
use vox_format::reader::Error;
use vox_format::stream::{ByteReader, ByteWriter, IoError};
use vox_format::data::{VoxBuffer, VoxData, VoxModelBuffer, VoxModels};
use vox_format::types::{
    byte_to_i8, i8_to_byte, Color, ColorIndex, Material, MaterialPalette, MaterialTryFromError,
    MaterialType, Model, Palette, Point, Size, Vector, Version, Voxel,
};

fn written<F: FnOnce(&mut ByteWriter)>(write: F) -> Vec<u8> {
    let mut writer = ByteWriter::new();
    write(&mut writer);
    writer.into_inner()
}

#[test]
fn the_supported_version_is_150() {
    assert_eq!(Version::default(), Version(150));
    assert!(Version(150).is_supported());
    assert!(!Version(149).is_supported());
    assert!(!Version(200).is_supported());
    assert_eq!(written(|w| Version(0x0a0b0c0d).write(w).unwrap()), vec![0x0d, 0x0c, 0x0b, 0x0a]);
    let bytes = [150u8, 0, 0, 0, 1];
    let mut reader = ByteReader::new(&bytes);
    assert_eq!(Version::read(&mut reader).unwrap(), Version(150));
    assert!(matches!(Version::read(&mut reader), Err(Error::Io(IoError::UnexpectedEof))));
}

#[test]
fn vectors_are_made_of_three_coordinates() {
    let v = Vector::new(1u32, 2, 3);
    assert_eq!((v.x, v.y, v.z), (1, 2, 3));
    assert_eq!(Vector::from([4i8, -5, 6]), Point::new(4, -5, 6));
    assert_eq!(<[i8; 3]>::from(Point::new(4, -5, 6)), [4, -5, 6]);
    assert_eq!(Size::from([7, 8, 9]), Size::new(7, 8, 9));
}

#[test]
fn points_are_three_signed_bytes() {
    assert_eq!(written(|w| Point::new(-1, 0, 127).write(w).unwrap()), vec![0xff, 0, 0x7f]);
    let bytes = [0x80u8, 0x7f, 0xfe];
    assert_eq!(Point::read(&mut ByteReader::new(&bytes)).unwrap(), Point::new(-128, 127, -2));
    assert!(Point::read(&mut ByteReader::new(&bytes[..2])).is_err());
    for b in 0..=255u8 {
        assert_eq!(byte_to_i8(b), b as i8);
        assert_eq!(i8_to_byte(b as i8), b);
    }
}

#[test]
fn sizes_are_three_little_endian_integers() {
    let bytes = written(|w| Size::new(1, 0x0203, 0xffff_ffff).write(w).unwrap());
    assert_eq!(bytes, vec![1, 0, 0, 0, 3, 2, 0, 0, 0xff, 0xff, 0xff, 0xff]);
    assert_eq!(Size::read(&mut ByteReader::new(&bytes)).unwrap(), Size::new(1, 0x0203, 0xffff_ffff));
    assert!(Size::read(&mut ByteReader::new(&bytes[..11])).is_err());
}

#[test]
fn voxels_are_a_point_and_a_colour_index() {
    let voxel = Voxel::new([1, -2, 3], 200);
    assert_eq!(voxel.point, Point::new(1, -2, 3));
    assert_eq!(voxel.color_index, ColorIndex(200));
    assert_eq!(Voxel::new(Point::new(0, 0, 0), ColorIndex(1)).color_index.0, 1);
    let bytes = written(|w| voxel.write(w).unwrap());
    assert_eq!(bytes, vec![1, 0xfe, 3, 200]);
    assert_eq!(Voxel::read(&mut ByteReader::new(&bytes)).unwrap(), voxel);
    assert!(Voxel::read(&mut ByteReader::new(&bytes[..3])).is_err());
}

#[test]
fn colours_are_four_channels_in_order() {
    let color = Color::new(1, 2, 3, 4);
    assert_eq!((color.r, color.g, color.b, color.a), (1, 2, 3, 4));
    let bytes = written(|w| color.write(w).unwrap());
    assert_eq!(bytes, vec![1, 2, 3, 4]);
    assert_eq!(Color::read(&mut ByteReader::new(&bytes)).unwrap(), color);
    assert_eq!(<[u8; 4]>::from(color), [1, 2, 3, 4]);
    assert_eq!(Color::from([7, 8, 9, 10]), Color::new(7, 8, 9, 10));
    assert_eq!(Color::from(<[u8; 4]>::from(color)), color);
    assert_eq!(Color::light_blue(), Color::new(153, 204, 255, 255));
}

#[test]
fn colour_indices_are_one_byte() {
    assert_eq!(ColorIndex::default_index(), ColorIndex(79));
    assert_eq!(ColorIndex::from(5), ColorIndex(5));
    assert_eq!(u8::from(ColorIndex(6)), 6);
    assert_eq!(written(|w| ColorIndex(255).write(w).unwrap()), vec![255]);
    assert_eq!(ColorIndex::read(&mut ByteReader::new(&[9])).unwrap(), ColorIndex(9));
    assert!(ColorIndex::read(&mut ByteReader::new(&[])).is_err());
}

#[test]
fn the_default_palette_is_a_cube_and_four_ramps() {
    let palette = Palette::default();
    assert!(palette.is_default());
    assert_eq!(palette.colors[0], Color::new(0, 0, 0, 0));
    assert_eq!(palette.colors[1], Color::new(255, 255, 255, 255));
    assert_eq!(palette.colors[2], Color::new(255, 255, 204, 255));
    assert_eq!(palette.colors[7], Color::new(255, 204, 255, 255));
    assert_eq!(palette.colors[37], Color::new(204, 255, 255, 255));
    assert_eq!(palette.colors[69], Color::new(204, 0, 153, 255));
    assert_eq!(palette.colors[215], Color::new(0, 0, 51, 255));
    assert_eq!(palette.colors[216], Color::new(238, 0, 0, 255));
    assert_eq!(palette.colors[226], Color::new(0, 238, 0, 255));
    assert_eq!(palette.colors[236], Color::new(0, 0, 238, 255));
    assert_eq!(palette.colors[246], Color::new(238, 238, 238, 255));
    assert_eq!(palette.colors[255], Color::new(17, 17, 17, 255));
    assert_eq!(palette.get(ColorIndex::default_index()), Color::light_blue());
    assert_eq!(default_palette().colors, palette.colors);
    let levels = [255u8, 204, 153, 102, 51, 0];
    let ramp = [238u8, 221, 187, 170, 136, 119, 85, 68, 34, 17];
    for i in 1..216 {
        let k = i - 1;
        let expected = Color::new(levels[k / 36], levels[k / 6 % 6], levels[k % 6], 255);
        assert_eq!(palette.colors[i], expected);
        assert_eq!(rgba_color(DEFAULT_RGBA[i]), expected);
    }
    for k in 0..10 {
        assert_eq!(palette.colors[216 + k], Color::new(ramp[k], 0, 0, 255));
        assert_eq!(palette.colors[226 + k], Color::new(0, ramp[k], 0, 255));
        assert_eq!(palette.colors[236 + k], Color::new(0, 0, ramp[k], 255));
        assert_eq!(palette.colors[246 + k], Color::new(ramp[k], ramp[k], ramp[k], 255));
    }
}

#[test]
fn a_changed_palette_is_not_the_default() {
    let mut palette = Palette::default();
    palette.colors[255].a = 254;
    assert!(!palette.is_default());
    let mut palette = Palette::default();
    palette.colors[0] = Color::new(1, 1, 1, 1);
    assert!(!palette.is_default());
}

#[test]
fn a_palette_is_stored_without_its_first_slot() {
    let mut palette = Palette::default();
    for i in 0..256 {
        palette.colors[i] = Color::new(i as u8, 255 - i as u8, 7, 8);
    }
    let bytes = written(|w| palette.write(w).unwrap());
    assert_eq!(bytes.len(), 1020);
    assert_eq!(&bytes[..8], &[1, 254, 7, 8, 2, 253, 7, 8]);
    assert_eq!(&bytes[1016..], &[255, 0, 7, 8]);
    let back = Palette::read(&mut ByteReader::new(&bytes)).unwrap();
    assert_eq!(back.colors[0], Color::new(0, 0, 0, 0));
    assert_eq!(&back.colors[1..], &palette.colors[1..]);
    assert!(matches!(
        Palette::read(&mut ByteReader::new(&bytes[..1019])),
        Err(Error::Io(IoError::UnexpectedEof))
    ));
}

#[test]
fn a_palette_is_walked_in_order() {
    let palette = Palette::default();
    let mut walk = palette.iter();
    let mut seen = vec![];
    while let Some((index, color)) = walk.next() {
        seen.push((index, color));
    }
    assert_eq!(seen.len(), 256);
    assert!(walk.next().is_none());
    for (i, (index, color)) in seen.into_iter().enumerate() {
        assert_eq!(index, ColorIndex(i as u8));
        assert_eq!(color, palette.colors[i]);
    }
}

#[test]
fn a_palette_is_an_image_of_256_by_1() {
    let mut palette = Palette::default();
    palette.colors[3] = Color::new(9, 8, 7, 6);
    let image = palette.as_image();
    assert_eq!((image.width(), image.height()), (256, 1));
    assert_eq!(image.pixels().as_slice(), &palette.colors[..]);
    assert_eq!(Palette::from_image(&image).colors, palette.colors);
}

#[test]
fn a_small_image_leaves_slots_transparent() {
    let pixels = vec![Color::new(1, 2, 3, 4), Color::new(5, 6, 7, 8)];
    assert!(RgbaImage::new(2, 2, pixels.clone()).is_none());
    let image = RgbaImage::new(2, 1, pixels).unwrap();
    let palette = Palette::from_image(&image);
    assert_eq!(palette.colors[0], Color::new(1, 2, 3, 4));
    assert_eq!(palette.colors[1], Color::new(5, 6, 7, 8));
    for i in 2..256 {
        assert_eq!(palette.colors[i], Color::new(0, 0, 0, 0));
    }
}

#[test]
fn a_large_image_gives_its_first_256_pixels() {
    let pixels: Vec<Color> = (0..600).map(|i| Color::new((i % 256) as u8, (i / 256) as u8, 0, 255)).collect();
    let image = RgbaImage::new(20, 30, pixels.clone()).unwrap();
    let palette = Palette::from_image(&image);
    assert_eq!(&palette.colors[..], &pixels[..256]);
}

#[test]
fn a_model_is_searched_for_a_point() {
    let model = Model {
        size: Size::new(2, 2, 2),
        voxels: vec![Voxel::new([0, 0, 0], 1), Voxel::new([1, 1, 1], 2), Voxel::new([0, 0, 0], 3)],
    };
    assert_eq!(model.get_voxel(Point::new(0, 0, 0)), Some(&Voxel::new([0, 0, 0], 1)));
    assert_eq!(model.get_voxel(Point::new(1, 1, 1)).unwrap().color_index, ColorIndex(2));
    assert_eq!(model.get_voxel(Point::new(1, 0, 1)), None);
}

#[test]
fn material_kinds_are_four() {
    let kinds = [MaterialType::Diffuse, MaterialType::Metal, MaterialType::Glass, MaterialType::Emissive];
    for (i, kind) in kinds.into_iter().enumerate() {
        assert_eq!(MaterialType::try_from(i as u8), Ok(kind));
        assert_eq!(u8::from(kind), i as u8);
        assert_eq!(written(|w| kind.write(w).unwrap()), vec![i as u8]);
        assert_eq!(MaterialType::read(&mut ByteReader::new(&[i as u8])).unwrap(), kind);
    }
    assert_eq!(MaterialType::try_from(4), Err(MaterialTryFromError(4)));
    assert!(matches!(
        MaterialType::read(&mut ByteReader::new(&[200])),
        Err(Error::InvalidMaterial { material_type: 200 })
    ));
    assert!(matches!(
        MaterialType::read(&mut ByteReader::new(&[])),
        Err(Error::Io(IoError::UnexpectedEof))
    ));
}

fn material_record(kind: u8, weight: f32, flags: u32, values: &[f32]) -> Vec<u8> {
    let mut bytes = vec![kind];
    bytes.extend(weight.to_le_bytes());
    bytes.extend(flags.to_le_bytes());
    for value in values {
        bytes.extend(value.to_le_bytes());
    }
    bytes
}

#[test]
fn a_material_holds_the_values_that_its_flags_announce() {
    let bytes = material_record(1, 0.5, 0b1010_0101, &[1.0, 2.0, 3.0, 4.0]);
    let mut reader = ByteReader::new(&bytes);
    let material = Material::read(&mut reader).unwrap();
    assert_eq!(material.ty, MaterialType::Metal);
    assert_eq!(f32::from_bits(material.weight), 0.5);
    assert_eq!(material.plastic.map(f32::from_bits), Some(1.0));
    assert_eq!(material.roughness, None);
    assert_eq!(material.specular.map(f32::from_bits), Some(2.0));
    assert_eq!(material.ior, None);
    assert_eq!(material.attenuation, None);
    assert_eq!(material.power.map(f32::from_bits), Some(3.0));
    assert_eq!(material.glow, None);
    assert!(material.is_total_power);
    // The flags announce three values: the fourth is not read.
    assert_eq!(reader.stream_position(), 9 + 12);
}

#[test]
fn a_material_without_flags_holds_no_values() {
    let bytes = material_record(0, 1.0, 0, &[]);
    let material = Material::read(&mut ByteReader::new(&bytes)).unwrap();
    assert_eq!(material.ty, MaterialType::Diffuse);
    assert_eq!(f32::from_bits(material.weight), 1.0);
    assert_eq!(
        (material.plastic, material.roughness, material.specular, material.ior),
        (None, None, None, None)
    );
    assert_eq!((material.attenuation, material.power, material.glow), (None, None, None));
    assert!(!material.is_total_power);
}

#[test]
fn a_material_with_all_flags_holds_seven_values() {
    let bytes = material_record(3, 0.25, 0x7f, &[1.0, 2.0, 3.0, 4.0, 5.0, 6.0, 7.0]);
    let material = Material::read(&mut ByteReader::new(&bytes)).unwrap();
    assert_eq!(material.ty, MaterialType::Emissive);
    let values = [
        material.plastic,
        material.roughness,
        material.specular,
        material.ior,
        material.attenuation,
        material.power,
        material.glow,
    ];
    for (i, value) in values.into_iter().enumerate() {
        assert_eq!(value.map(f32::from_bits), Some(i as f32 + 1.0));
    }
    assert!(!material.is_total_power);
}

#[test]
fn a_material_that_is_cut_off_or_of_no_kind_is_refused() {
    let bytes = material_record(2, 0.5, 0b11, &[1.0]);
    assert!(matches!(
        Material::read(&mut ByteReader::new(&bytes)),
        Err(Error::Io(IoError::UnexpectedEof))
    ));
    assert!(matches!(
        Material::read(&mut ByteReader::new(&bytes[..8])),
        Err(Error::Io(IoError::UnexpectedEof))
    ));
    let bytes = material_record(9, 0.5, 0, &[]);
    assert!(matches!(
        Material::read(&mut ByteReader::new(&bytes)),
        Err(Error::InvalidMaterial { material_type: 9 })
    ));
}

#[test]
fn an_empty_collector_has_the_default_palette() {
    let vox = VoxData::new(Version(7));
    assert_eq!(vox.version, Version(7));
    assert!(vox.models.is_empty());
    assert!(vox.palette.is_default());
    let vox = VoxData::default();
    assert_eq!(vox.version, Version(150));
    assert!(vox.models.is_empty());
    assert!(vox.palette.is_default());
}

#[test]
fn the_collector_adds_a_model_for_each_size_and_a_voxel_to_the_last() {
    let mut vox = VoxData::default();
    vox.set_version(Version(3));
    let mut palette = Palette::default();
    palette.colors[1] = Color::new(1, 1, 1, 1);
    vox.set_palette(palette);
    vox.set_num_models(2);
    vox.set_model_size(Size::new(1, 2, 3));
    vox.set_voxel(Voxel::new([0, 0, 0], 1));
    vox.set_voxel(Voxel::new([0, 1, 0], 2));
    vox.set_model_size(Size::new(4, 5, 6));
    vox.set_voxel(Voxel::new([3, 3, 3], 3));
    assert_eq!(vox.version, Version(3));
    assert_eq!(vox.palette.colors[1], Color::new(1, 1, 1, 1));
    assert_eq!(vox.models.len(), 2);
    assert_eq!(vox.models[0].size, Size::new(1, 2, 3));
    assert_eq!(vox.models[0].voxels, vec![Voxel::new([0, 0, 0], 1), Voxel::new([0, 1, 0], 2)]);
    assert_eq!(vox.models[1].size, Size::new(4, 5, 6));
    assert_eq!(vox.models[1].voxels, vec![Voxel::new([3, 3, 3], 3)]);
}

/// A model that only counts its voxels of each colour.
struct Histogram {
    counts: Vec<usize>,
}

impl VoxModelBuffer for Histogram {
    fn new(_size: Size) -> Self {
        Histogram { counts: vec![0; 256] }
    }

    fn set_voxel(&mut self, voxel: Voxel, _palette: &Palette) {
        self.counts[voxel.color_index.0 as usize] += 1;
    }
}

#[test]
fn the_collector_takes_other_kinds_of_models() {
    let mut vox: VoxModels<Histogram> = VoxModels::default();
    vox.set_model_size(Size::new(1, 1, 1));
    vox.set_voxel(Voxel::new([0, 0, 0], 9));
    vox.set_voxel(Voxel::new([0, 0, 1], 9));
    vox.set_voxel(Voxel::new([0, 0, 2], 8));
    assert_eq!(vox.models.len(), 1);
    assert_eq!(vox.models[0].counts[9], 2);
    assert_eq!(vox.models[0].counts[8], 1);
    let model = Model::new(Size::new(2, 2, 2));
    assert_eq!(model.size, Size::new(2, 2, 2));
    assert!(model.voxels.is_empty());
}

#[test]
fn a_material_palette_is_empty_at_first() {
    let materials = MaterialPalette::default();
    assert!(materials.is_empty());
    assert_eq!(materials.get(ColorIndex(0)), None);
    assert_eq!(materials.get(ColorIndex(79)), None);
    assert!(materials.iter().is_empty());
}
