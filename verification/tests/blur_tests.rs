use way_edges::blur::{blur_image_surface, blur_words, SurfaceFormat, KERNEL_SIZE};

fn kernel() -> Vec<u8> {
    let half = (KERNEL_SIZE / 2) as i32;
    (0..KERNEL_SIZE as i32)
        .map(|i| {
            let f = (i - half) as f64;
            ((-f * f / 30.0).exp() * 80.0) as u8
        })
        .collect()
}

/// The blur written the straightforward way, on word buffers.
fn direct_blur(src: &mut Vec<u32>, src_stride: i32, dst: &mut Vec<u32>, dst_stride: i32, width: i32, height: i32, radius: i32, kernel: &[u8]) {
    let size = kernel.len() as i32;
    let half = size / 2;
    let a: u32 = kernel.iter().map(|k| *k as u32).sum();
    let mix = |words: &dyn Fn(i32) -> Option<u32>| {
        let (mut x, mut y, mut z, mut w) = (0u32, 0u32, 0u32, 0u32);
        for k in 0..size {
            if let Some(p) = words(k) {
                let kw = kernel[k as usize] as u32;
                x += ((p >> 24) & 0xff) * kw;
                y += ((p >> 16) & 0xff) * kw;
                z += ((p >> 8) & 0xff) * kw;
                w += (p & 0xff) * kw;
            }
        }
        (x / a) << 24 | (y / a) << 16 | (z / a) << 8 | (w / a)
    };
    for i in 0..height {
        for j in 0..width {
            let v = if radius < j && j < width - radius {
                src[(i * src_stride + j) as usize]
            } else {
                mix(&|k| {
                    let t = j - half + k;
                    if t < 0 || t >= width { None } else { Some(src[(i * src_stride + t) as usize]) }
                })
            };
            dst[(i * dst_stride + j) as usize] = v;
        }
    }
    for i in 0..height {
        for j in 0..width {
            let v = if radius < i && i < height - radius {
                dst[(i * dst_stride + j) as usize]
            } else {
                mix(&|k| {
                    let t = i - half + k;
                    if t < 0 || t >= height { None } else { Some(dst[(t * dst_stride + j) as usize]) }
                })
            };
            src[(i * src_stride + j) as usize] = v;
        }
    }
}

fn image(stride: usize, height: usize) -> Vec<u32> {
    let mut seed: u32 = 12345;
    (0..stride * height)
        .map(|_| {
            seed = seed.wrapping_mul(1103515245).wrapping_add(12345);
            seed
        })
        .collect()
}

#[test]
fn kernel_values() {
    assert_eq!(kernel(), vec![9, 15, 24, 34, 46, 59, 70, 77, 80, 77, 70, 59, 46, 34, 24, 15, 9]);
}

#[test]
fn blur_matches_direct_computation() {
    let k = kernel();
    for (width, height, stride, radius) in [(20usize, 12usize, 20usize, 3i32), (30, 25, 32, 5), (5, 4, 8, 0), (9, 9, 9, 20), (7, 3, 7, -1)] {
        let mut ours = image(stride, height);
        let mut direct = ours.clone();
        let mut t1 = vec![0u32; width * height];
        let mut t2 = t1.clone();
        blur_image_surface(&mut ours, stride, &mut t1, width, width, height, radius, &k);
        direct_blur(&mut direct, stride as i32, &mut t2, width as i32, width as i32, height as i32, radius, &k);
        assert_eq!(t1, t2);
        assert_eq!(ours, direct);
    }
}

#[test]
fn blur_keeps_padding_words() {
    let k = kernel();
    let mut img = image(10, 4);
    let before = img.clone();
    let mut t = vec![0u32; 8 * 4];
    blur_image_surface(&mut img, 10, &mut t, 8, 8, 4, 1, &k);
    for i in 0..4 {
        for j in 8..10 {
            assert_eq!(img[i * 10 + j], before[i * 10 + j]);
        }
    }
}

#[test]
fn uniform_image_darkens_only_at_borders() {
    let k = kernel();
    let mut img = vec![0xffffffffu32; 40 * 40];
    let mut t = vec![0u32; 40 * 40];
    blur_image_surface(&mut img, 40, &mut t, 40, 40, 40, 10, &k);
    // the centre is copied
    assert_eq!(img[20 * 40 + 20], 0xffffffff);
    // a corner loses the weight of the taps outside the image
    assert!(img[0] < 0xffffffff);
}

#[test]
fn words_per_row_by_format() {
    assert_eq!(blur_words(SurfaceFormat::A1, 40), None);
    assert_eq!(blur_words(SurfaceFormat::A8, 41), Some(10));
    assert_eq!(blur_words(SurfaceFormat::Other, 41), Some(41));
}
