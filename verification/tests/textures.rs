use image_dds::ddsfile::Dds;
use wowsunpack::export::pbr::first_camo_picture;
use wowsunpack::export::pbr::pbr_channels;
use wowsunpack::export::pbr::PbrChannels;
use wowsunpack::export::pixels;
use wowsunpack::export::pixels::RgbaPixels;
use wowsunpack::export::raw_dds::is_repackable;
use wowsunpack::export::raw_dds::make_siblings;
use wowsunpack::export::raw_dds::DirRepacker;
use wowsunpack::export::raw_dds::mip_files;
use wowsunpack::export::raw_dds::split_texture_name;
use wowsunpack::export::raw_dds::RawDdsDumper;
use wowsunpack::export::texture;
use wowsunpack::export::texture::BlockFormat;
use wowsunpack::export::texture::TextureError;
use wowsunpack::export::texture_set;
use wowsunpack::export::texture_set::CamoPicture;
use wowsunpack::export::texture_set::MaterialFiles;
use wowsunpack::export::texture_set::SchemeFiles;
use wowsunpack::export::tiledland::bake_tiledland_albedo;
use wowsunpack::models::material::TiledLandInputs;

/// An uncompressed DDS file of the given size with one colour.
fn plain_dds(width: u32, height: u32, color: [u8; 4]) -> Vec<u8> {
    let data: Vec<u8> = (0..width * height).flat_map(|_| color).collect();
    let surface = image_dds::SurfaceRgba8 { width, height, depth: 1, layers: 1, mipmaps: 1, data };
    let dds: Dds = surface
        .encode_dds(
            image_dds::ImageFormat::Rgba8Unorm,
            image_dds::Quality::Fast,
            image_dds::Mipmaps::Disabled,
        )
        .unwrap();
    let mut out = Vec::new();
    dds.write(&mut out).unwrap();
    out
}

/// The pixels of a PNG file.
fn png_pixels(png: &[u8]) -> (u32, u32, Vec<u8>) {
    let image = image::load_from_memory(png).unwrap().into_rgba8();
    (image.width(), image.height(), image.into_raw())
}

#[test]
fn dds_becomes_png() {
    let png = texture::dds_to_png(&plain_dds(3, 2, [10, 20, 30, 40])).unwrap();
    let (w, h, p) = png_pixels(&png);
    assert_eq!((w, h), (3, 2));
    assert_eq!(&p[..4], [10, 20, 30, 40]);
    assert_eq!(p.len(), 24);
}

#[test]
fn broken_dds_is_told_apart_from_unreadable_one() {
    let e = texture::dds_to_png(b"no texture").unwrap_err();
    assert!(matches!(e, TextureError::DdsParse(_)));
    assert!(e.message().starts_with("failed to parse DDS: "));
    let mut cut = plain_dds(4, 4, [0; 4]);
    cut.truncate(150);
    let e = texture::dds_to_png(&cut).unwrap_err();
    assert!(matches!(e, TextureError::DdsDecode(_)));
    assert!(e.message().starts_with("failed to decode DDS image: "));
    assert_eq!(TextureError::PngEncode("x".to_string()).message(), "failed to encode PNG: x");
    assert_eq!(TextureError::DdsEncode("x".to_string()).message(), "failed to encode DDS: x");
    assert_eq!(TextureError::IoError("x".to_string()).message(), "io error: x");
}

#[test]
fn cube_map_with_uncountable_faces_is_refused() {
    let mut b = vec![0u8; 200];
    b[80..84].copy_from_slice(&4u32.to_le_bytes());
    b[84..88].copy_from_slice(b"DX10");
    b[136..140].copy_from_slice(&4u32.to_le_bytes());
    b[140..144].copy_from_slice(&u32::MAX.to_le_bytes());
    let e = texture::decode_single_mip_dds(&b).unwrap_err();
    assert_eq!(e.message(), "failed to decode DDS image: cube map has too many faces");
    // Without mip levels, layers share their bytes.
    let mut b = vec![0u8; 200];
    b[8..12].copy_from_slice(&0x2_0000u32.to_le_bytes());
    b[12..16].copy_from_slice(&0x1000_0000u32.to_le_bytes());
    b[80..84].copy_from_slice(&4u32.to_le_bytes());
    b[84..88].copy_from_slice(b"DX10");
    b[140..144].copy_from_slice(&0x1000_0000u32.to_le_bytes());
    let e = texture::decode_single_mip_dds(&b).unwrap_err();
    assert_eq!(e.message(), "failed to decode DDS image: file is too large");
}

#[test]
fn png_alpha_is_made_full() {
    let mut png = texture::dds_to_png(&plain_dds(2, 2, [1, 2, 3, 4])).unwrap();
    texture::force_png_opaque(&mut png);
    assert_eq!(&png_pixels(&png).2[..4], [1, 2, 3, 255]);
    let mut garbage = vec![1, 2, 3];
    texture::force_png_opaque(&mut garbage);
    assert_eq!(garbage, [1, 2, 3]);
}

#[test]
fn compressed_files_keep_their_size() {
    let image = RgbaPixels { width: 5, height: 9, pixels: vec![200u8; 180] };
    for (format, block) in [(BlockFormat::Bc1, 8), (BlockFormat::Bc4, 8), (BlockFormat::Bc7, 16)] {
        let file = texture::encode_single_mip_dds(&image, format).unwrap();
        assert_eq!(file.len(), 148 + 2 * 3 * block);
        assert_eq!(file[12..16], 9u32.to_le_bytes());
        assert_eq!(file[16..20], 5u32.to_le_bytes());
        let back = texture::decode_single_mip_dds(&file).unwrap();
        assert_eq!((back.width, back.height), (5, 9));
    }
}

#[test]
fn image_without_pixels_is_not_compressed() {
    let image = RgbaPixels { width: 0, height: 4, pixels: vec![] };
    assert!(matches!(
        texture::encode_single_mip_dds(&image, BlockFormat::Bc1),
        Err(TextureError::DdsEncode(_))
    ));
}

#[test]
fn image_with_one_empty_side_is_not_compressed() {
    let image = RgbaPixels { width: u32::MAX, height: 0, pixels: vec![] };
    let e = texture::encode_single_mip_dds(&image, BlockFormat::Bc7).unwrap_err();
    assert!(matches!(e, TextureError::DdsEncode(_)));
    assert_ne!(e.message(), "failed to encode DDS: image is too large");
}

#[test]
fn gloss_becomes_roughness() {
    assert_eq!(pixels::to_metallic_roughness(&vec![10, 20, 30, 40]), [10, 225, 20, 255]);
    let png = texture::dds_to_png(&plain_dds(2, 1, [10, 20, 30, 40])).unwrap();
    let repacked = texture::repack_wg_mg_to_gltf_mr(&png).unwrap();
    assert_eq!(&png_pixels(&repacked).2[..4], [10, 225, 20, 255]);
    assert!(matches!(texture::repack_wg_mg_to_gltf_mr(b"x"), Err(TextureError::DdsDecode(_))));
}

#[test]
fn normals_get_their_z_component() {
    // The formula in single precision.
    for x in 0..=255u8 {
        for y in 0..=255u8 {
            let nx = x as f32 / 255.0 * 2.0 - 1.0;
            let ny = y as f32 / 255.0 * 2.0 - 1.0;
            let nz = (1.0 - nx * nx - ny * ny).max(0.0).sqrt();
            let expected = ((nz * 0.5 + 0.5) * 255.0).round() as u8;
            assert_eq!(pixels::reconstruct_z(x, y), expected, "({x}, {y})");
        }
    }
    let png = texture::dds_to_png(&plain_dds(1, 1, [128, 128, 7, 9])).unwrap();
    let normal = texture::replace_normal_b_with_reconstructed_z_png(&png).unwrap();
    assert_eq!(png_pixels(&normal).2, [128, 128, 255, 255]);
}

#[test]
fn normal_map_is_split_without_loss() {
    let p = vec![100, 150, 77, 3];
    let normals = pixels::reconstruct_normals(&p);
    let mask = pixels::extract_blue(&p);
    assert_eq!(&normals[..2], [100, 150]);
    assert_eq!(mask, [77, 0, 0, 255]);
    let (normal, mask) = texture::split_wg_normal_dds(&plain_dds(4, 4, [100, 150, 77, 255])).unwrap();
    let normal = texture::decode_single_mip_dds(&normal).unwrap();
    let mask = texture::decode_single_mip_dds(&mask).unwrap();
    assert!(normal.pixels[0].abs_diff(100) <= 4);
    assert!(normal.pixels[1].abs_diff(150) <= 4);
    assert!(mask.pixels[0].abs_diff(77) <= 4);
    assert!(matches!(texture::split_wg_normal_dds(b"x"), Err(TextureError::DdsParse(_))));
}

#[test]
fn mask_zones_take_their_colours() {
    assert_eq!(pixels::classify(200, 10, 10), 1);
    assert_eq!(pixels::classify(10, 200, 10), 2);
    assert_eq!(pixels::classify(10, 10, 200), 3);
    assert_eq!(pixels::classify(30, 10, 10), 0);
    assert_eq!(pixels::classify(31, 10, 10), 1);
    assert_eq!(pixels::classify(90, 90, 0), 0);
    let colors = [[1, 1, 1, 1], [2, 2, 2, 2], [3, 3, 3, 3], [4, 4, 4, 4]];
    let png = texture::bake_tiled_camo_png(&plain_dds(1, 1, [0, 255, 0, 255]), &colors).unwrap();
    assert_eq!(png_pixels(&png).2, [3, 3, 3, 3]);
}

#[test]
fn reduction_averages_boxes() {
    let pixels: Vec<u8> = [0u8, 100, 50, 150].iter().flat_map(|v| [*v, 8, 9, 255]).collect();
    let image = RgbaPixels { width: 4, height: 1, pixels };
    let half = pixels::box_filter(&image, 2, 1);
    assert_eq!((half.width, half.height), (2, 1));
    assert_eq!(half.pixels, [50, 8, 9, 255, 100, 8, 9, 255]);
    let png = texture::write_reduced_png(&image, Some((2, 1))).unwrap();
    assert_eq!(png_pixels(&png).2, half.pixels);
    let png = texture::write_reduced_png(&image, None).unwrap();
    assert_eq!(png_pixels(&png).2, image.pixels);
    assert_eq!(texture::find_target_size(4, 1, Some(3)), Some((3, 1)));
    assert_eq!(texture::find_target_size(4, 1, Some(4)), None);
    assert_eq!(texture::find_target_size(4, 1, None), None);
}

#[test]
fn albedo_is_opaque() {
    let dds = plain_dds(8, 4, [1, 2, 3, 4]);
    let (w, h, p) = png_pixels(&texture::make_albedo(&dds, Some(4)).unwrap());
    assert_eq!((w, h), (4, 2));
    assert!(p.chunks(4).all(|c| c == [1, 2, 3, 255]));
    assert!(texture::make_albedo(b"x", None).is_none());
}

#[test]
fn reduced_images_stay_below_the_limit() {
    for (w, h, max) in [(4096u32, 4095, 1000u32), (3, 7, 2), (u32::MAX, 1, 8_388_607), (9, 9, 1)] {
        let (nw, nh) = texture::find_target_size(w, h, Some(max)).unwrap();
        assert!(0 < nw && nw <= max && 0 < nh && nh <= max);
    }
    // Single precision is too coarse for larger limits.
    let beyond = texture::find_target_size(92_019_745, 1, Some(13_156_011));
    assert_eq!(beyond, Some((13_156_012, 1)));
}

#[test]
fn target_sizes_match_single_precision() {
    for (w, h, max) in [(4096u32, 2048, 1000u32), (1000, 1000, 333), (7, 3000, 512), (5, 5, 0)] {
        let scale = (max as f32 / w as f32).min(max as f32 / h as f32);
        let expected = (
            ((w as f32 * scale) as u32).max(1),
            ((h as f32 * scale) as u32).max(1),
        );
        assert_eq!(texture::find_target_size(w, h, Some(max)), Some(expected));
    }
    let dds = plain_dds(8, 4, [1, 2, 3, 4]);
    let (w, h, p) = png_pixels(&texture::dds_to_png_resized(&dds, Some(3)).unwrap());
    assert_eq!((w, h), (3, 1));
    assert_eq!(p[..4], [1, 2, 3, 4]);
    assert!(matches!(texture::dds_to_png_resized(b"x", None), Err(TextureError::DdsParse(_))));
}

/// An uncompressed DDS file with two layers.
fn two_layers() -> Vec<u8> {
    let data: Vec<u8> = vec![1, 2, 3, 4, 5, 6, 7, 8, 11, 12, 13, 14, 15, 16, 17, 18];
    let surface =
        image_dds::SurfaceRgba8 { width: 2, height: 1, depth: 1, layers: 2, mipmaps: 1, data };
    let dds: Dds = surface
        .encode_dds(
            image_dds::ImageFormat::Rgba8Unorm,
            image_dds::Quality::Fast,
            image_dds::Mipmaps::Disabled,
        )
        .unwrap();
    let mut out = Vec::new();
    dds.write(&mut out).unwrap();
    out
}

#[test]
fn atlas_layers_are_picked_by_number() {
    let index = [1.0f32, 0.9, 2.0, -3.0].map(f32::to_bits);
    let tiles = texture::tile_layers(&two_layers(), &index).unwrap();
    let first = |i: usize| tiles[i].as_ref().map(|t| (t.width, t.height, t.pixels[0]));
    assert_eq!(first(0), Some((2, 1, 11)));
    assert_eq!(first(1), Some((2, 1, 1)));
    assert_eq!(first(2), None);
    assert_eq!(first(3), Some((2, 1, 1)));
    assert!(texture::tile_layers(b"no atlas", &index).is_none());
    // An atlas without mip levels whose rows cannot be counted.
    let mut shared = two_layers();
    shared[10] |= 2;
    shared[28..32].copy_from_slice(&0u32.to_le_bytes());
    shared[12..16].copy_from_slice(&u32::MAX.to_le_bytes());
    assert!(texture::tile_layers(&shared, &index).is_none());
}

#[test]
fn terrain_is_baked_from_atlas_and_blend_map() {
    let inputs = TiledLandInputs {
        atlas_hash: 1,
        blend_hash: 2,
        tiles_index: [1.0f32, 0.0, 9.0, 9.0].map(f32::to_bits),
        tiles_scale: 1.0f32.to_bits(),
        sheen_tint: None,
        sheen_amount: 0,
    };
    let atlas = Some(two_layers());
    let blend = Some(plain_dds(2, 1, [255, 0, 0, 0]));
    let png = bake_tiledland_albedo(&inputs, &atlas, &blend, None).unwrap();
    assert_eq!(png_pixels(&png).2, [11, 12, 13, 255, 15, 16, 17, 255]);
    let small = bake_tiledland_albedo(&inputs, &atlas, &blend, Some(1)).unwrap();
    assert_eq!(png_pixels(&small), (1, 1, vec![13, 14, 15, 255]));
    assert!(bake_tiledland_albedo(&inputs, &None, &blend, None).is_none());
    assert!(bake_tiledland_albedo(&inputs, &atlas, &Some(vec![]), None).is_none());
}

#[test]
fn mip_files_belong_to_one_texture() {
    let files = mip_files("a/b_n.dd0");
    let names: Vec<&str> = files.iter().map(|f| f.file_name.as_str()).collect();
    assert_eq!(names, ["b_n.dd0", "b_n.dd1", "b_n.dd2", "b_n.dds"]);
    assert_eq!(files[1].path, "a/b_n.dd1");
    assert_eq!(files[1].mip_suffix, ".dd1");
}

#[test]
fn directories_are_repacked_once() {
    let dds = plain_dds(4, 4, [10, 20, 30, 40]);
    let mut dir = DirRepacker::new(vec!["hull_nbmask.dd0".to_string()]);
    assert!(dir.wants("hull_n.DD0") && dir.wants("hull_mg.dds"));
    assert!(!dir.wants("hull_a.dds") && !dir.wants("hull_n.png") && !dir.wants("dds"));
    let made = dir.repack("hull_n.DD0", &dds).unwrap().unwrap();
    assert_eq!(made.iter().map(|f| f.name.as_str()).collect::<Vec<_>>(), ["hull_normal.dd0"]);
    for file in made {
        dir.record_written(file.name);
    }
    assert!(dir.repack("hull_n.DD0", &dds).unwrap().unwrap().is_empty());
    assert!(dir.repack("hull_mg.dd1", b"x").unwrap().is_err());
    assert!(dir.repack("hull_a.dd1", b"x").is_none());
    assert_eq!((dir.processed, dir.written), (3, 1));
}

#[test]
fn repacking_a_directory_twice_changes_nothing() {
    let dds = plain_dds(4, 4, [10, 20, 30, 40]);
    let mut names = vec!["a_n.dds".to_string(), "a_mg.dd1".to_string(), "a_a.dds".to_string()];
    let mut counts = Vec::new();
    for _ in 0..2 {
        let mut dir = DirRepacker::new(names.clone());
        for name in names.clone() {
            if let Some(made) = dir.repack(&name, &dds) {
                for file in made.unwrap() {
                    assert!(!dir.wants(&file.name));
                    names.push(file.name.clone());
                    dir.record_written(file.name);
                }
            }
        }
        names.reverse();
        counts.push((dir.processed, dir.written));
    }
    assert_eq!(counts, [(2, 3), (2, 0)]);
}

#[test]
fn siblings_are_made_once() {
    let dds = plain_dds(4, 4, [100, 150, 77, 255]);
    let made = make_siblings("hull_n", ".dd0", &dds, &vec![]).unwrap();
    let names: Vec<&str> = made.iter().map(|f| f.name.as_str()).collect();
    assert_eq!(names, ["hull_normal.dd0", "hull_nbmask.dd0"]);
    let present = vec!["hull_normal.dd0".to_string()];
    let made = make_siblings("hull_n", ".dd0", &dds, &present).unwrap();
    assert_eq!(made.len(), 1);
    assert_eq!(made[0].name, "hull_nbmask.dd0");
    let present = vec!["hull_normal.dd0".to_string(), "hull_nbmask.dd0".to_string()];
    assert!(make_siblings("hull_n", ".dd0", b"unread", &present).unwrap().is_empty());
    let made = make_siblings("hull_mg", ".dds", &dds, &vec![]).unwrap();
    assert_eq!(made[0].name, "hull_mr.dds");
    assert!(make_siblings("hull_a", ".dds", b"unread", &vec![]).unwrap().is_empty());
    assert!(matches!(
        make_siblings("hull_mg", ".dds", b"x", &vec![]),
        Err(TextureError::DdsParse(_))
    ));
}

#[test]
fn texture_file_names_are_split_in_any_case() {
    assert_eq!(
        split_texture_name("Hull_N.DD0"),
        Some(("Hull_N".to_string(), ".dd0".to_string()))
    );
    assert_eq!(split_texture_name("hull.png"), None);
    assert!(is_repackable("hull_n"));
    assert!(is_repackable("hull_mg"));
    assert!(!is_repackable("hull_a"));
}

#[test]
fn dump_writes_each_file_once() {
    let mut dump = RawDdsDumper::new();
    assert!(dump.wants("a.dds"));
    dump.mark_written("a.dds");
    assert!(!dump.wants("a.dds"));
    assert!(dump.wants("b.dds"));
    let dds = plain_dds(4, 4, [100, 150, 77, 255]);
    assert_eq!(dump.conformant_siblings("x_mg.dd0", &dds, ".dd0").unwrap().len(), 1);
    dump.mark_written("x_mr.dd0");
    assert!(dump.conformant_siblings("x_mg.dd0", &dds, ".dd0").unwrap().is_empty());
    assert!(dump.conformant_siblings("x_mg.dds", &dds, ".dd0").unwrap().is_empty());
}

#[test]
fn channels_are_converted_by_purpose() {
    let none = PbrChannels::default();
    assert!(none.normal.is_none() && none.metallic_roughness.is_none() && none.occlusion.is_none());
    let normal = Some(plain_dds(1, 1, [128, 128, 0, 255]));
    let gloss = Some(plain_dds(1, 1, [1, 2, 3, 255]));
    let occlusion = Some(plain_dds(1, 1, [9, 9, 9, 9]));
    let c = pbr_channels(&normal, &gloss, &occlusion);
    assert_eq!(png_pixels(&c.normal.unwrap()).2, [128, 128, 255, 255]);
    assert_eq!(png_pixels(&c.metallic_roughness.unwrap()).2, [1, 252, 2, 255]);
    assert_eq!(png_pixels(&c.occlusion.unwrap()).2, [9, 9, 9, 9]);
    let c = pbr_channels(&Some(vec![1]), &None, &Some(vec![2]));
    assert!(c.normal.is_none() && c.metallic_roughness.is_none() && c.occlusion.is_none());
}

#[test]
fn first_usable_camouflage_texture_is_taken() {
    let files = vec![None, Some(vec![0u8; 3]), Some(plain_dds(1, 1, [5, 6, 7, 8]))];
    let png = first_camo_picture(&files, false, &None).unwrap();
    assert_eq!(png_pixels(&png).2, [5, 6, 7, 8]);
    assert!(first_camo_picture(&files, true, &None).is_none());
    let colors = Some([[1, 2, 3, 4]; 4]);
    let png = first_camo_picture(&files, true, &colors).unwrap();
    assert_eq!(png_pixels(&png).2, [1, 2, 3, 4]);
}

#[test]
fn texture_set_leaves_out_what_is_missing() {
    let materials = vec![
        MaterialFiles {
            stem: "bow".to_string(),
            albedo: Some(plain_dds(1, 1, [1, 1, 1, 1])),
            normal: None,
            metallic_gloss: None,
            occlusion: Some(vec![]),
        },
        MaterialFiles {
            stem: "stern".to_string(),
            albedo: None,
            normal: Some(plain_dds(1, 1, [128, 128, 0, 0])),
            metallic_gloss: None,
            occlusion: None,
        },
    ];
    let schemes = vec![
        SchemeFiles { name: "camo_01".to_string(), files: vec![None, Some(plain_dds(1, 1, [2; 4]))] },
        SchemeFiles { name: "camo_02".to_string(), files: vec![None, Some(vec![])] },
    ];
    let mut set = texture_set::build_texture_set(&materials, &schemes);
    assert_eq!(set.base.len(), 1);
    assert_eq!(set.base[0].name, "bow");
    assert_eq!(set.normal_base[0].name, "stern");
    assert!(set.metallic_roughness_base.is_empty());
    assert!(set.occlusion_base.is_empty());
    assert_eq!(set.camo_schemes.len(), 1);
    assert_eq!(set.camo_schemes[0].name, "camo_01");
    assert_eq!(set.camo_schemes[0].pictures[0].name, "stern");

    let stems = vec!["bow".to_string(), "stern".to_string()];
    let camos = vec![
        CamoPicture { display_name: "Steel".to_string(), picture: None, tiled: true, entry: 4 },
        CamoPicture {
            display_name: "Gold".to_string(),
            picture: Some(vec![7]),
            tiled: true,
            entry: 5,
        },
        CamoPicture {
            display_name: "Plain".to_string(),
            picture: Some(vec![8]),
            tiled: false,
            entry: 6,
        },
    ];
    let tiled = texture_set::add_camos(&mut set, &stems, &camos);
    assert_eq!(set.camo_schemes.len(), 3);
    assert_eq!(set.camo_schemes[1].name, "Gold");
    assert_eq!(set.camo_schemes[1].pictures.len(), 2);
    assert_eq!(set.camo_schemes[2].pictures[1].value, [8]);
    assert_eq!(tiled.len(), 1);
    assert_eq!((tiled[0].scheme, tiled[0].entry), (1, 5));
}
