use sandgrid::model::SubMeshData;
use sandgrid::primitives::CpuTexture;
use sandgrid::utils::align_buffer_size;
use sandgrid::utils::new_texture;
use sandgrid::utils::FrameTime;

#[test]
fn align_rounds_up_to_multiples() {
    assert_eq!(align_buffer_size(13, 16), 16);
    assert_eq!(align_buffer_size(16, 16), 16);
    assert_eq!(align_buffer_size(17, 16), 32);
    assert_eq!(align_buffer_size(0, 8), 0);
    assert_eq!(align_buffer_size(255, 256), 256);
    assert_eq!(align_buffer_size(1, 1), 1);
}

#[test]
fn background_texture_gradient_bytes() {
    let data = new_texture(4, 2);
    assert_eq!(data.len(), 32);
    // Pixel (0, 0): red 0, green (0*510+2)/(2*2) = 0.
    assert_eq!(&data[0..4], &[0, 0, 255, 255]);
    // Pixel (3, 1): red 3*255/4 = 191, green (1*510+2)/(2*2) = 128.
    let i = (1 * 4 + 3) * 4;
    assert_eq!(&data[i..i + 4], &[191, 128, 255, 255]);
}

#[test]
fn cpu_texture_set_and_get_pixels() {
    let mut t = CpuTexture::new(2, 2, vec![0u8; 16]);
    assert_eq!(t.get_width(), 2);
    assert_eq!(t.get_height(), 2);
    t.set_pixel(1, 0, 10, 20, 30, 40);
    t.set_pixel(0, 1, 1, 2, 3, 4);
    assert_eq!(t.get_pixel(1, 0), (10, 20, 30, 40));
    assert_eq!(t.get_pixel(0, 1), (1, 2, 3, 4));
    assert_eq!(t.get_pixel(0, 0), (0, 0, 0, 0));
    assert_eq!(t.get_pixels().len(), 16);
    assert_eq!(t.get_pixels()[4..8], [10, 20, 30, 40]);
}

#[test]
fn frame_time_remembers_last_interval() {
    let mut ft = FrameTime::new();
    let d1 = ft.tick();
    assert_eq!(ft.get_dt(), d1);
    std::hint::black_box(0u8);
    let d2 = ft.tick();
    assert_eq!(ft.get_dt(), d2);
}

#[test]
fn sub_mesh_data_fields() {
    let m = SubMeshData { name: "solo".to_string(), index_offset: 0, index_count: 6, material: 0 };
    assert_eq!(m.name, "solo");
    assert_eq!(m.index_offset, 0);
    assert_eq!(m.index_count, 6);
    assert_eq!(m.material, 0);
}
