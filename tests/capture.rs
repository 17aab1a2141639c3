use ambilight::capture::{aggregate, calculate_average_color, ExclusionPolicy, Frame, PixelFormat};
use ambilight::region::Region;
use ambilight::smoothing::{smooth_colors, SmoothingFactor};

fn mock_frame(width: usize, height: usize, fill: u8) -> Frame {
    let size = width * height * 3;
    let data: Vec<u8> = std::iter::repeat(fill).take(size).collect();
    Frame { width, height, format: PixelFormat::Rgb, data }
}

fn rgb_frame(width: usize, height: usize, pixel: [u8; 3]) -> Frame {
    let mut data = Vec::new();
    for _ in 0..width * height {
        data.extend_from_slice(&pixel);
    }
    Frame { width, height, format: PixelFormat::Rgb, data }
}

fn alpha(weight: u32, scale: u32) -> SmoothingFactor {
    SmoothingFactor::new(weight, scale).unwrap()
}

#[test]
fn test_calculate_average_color() {
    let frame = mock_frame(100, 100, 255);
    let avg_color = calculate_average_color(&frame, Region::Top);
    assert_eq!(avg_color, [255, 255, 255]);

    let frame = mock_frame(100, 100, 0);
    let avg_color = calculate_average_color(&frame, Region::Bottom);
    assert_eq!(avg_color, [0, 0, 0]);

    let avg_color = calculate_average_color(&frame, Region::Left);
    assert_eq!(avg_color, [0, 0, 0]);
}

#[test]
fn test_smooth_colors() {
    let current_colors = (100, 150, 200);
    let new_colors = [110, 160, 210];
    let smoothed = smooth_colors(current_colors, new_colors, SmoothingFactor::from_thousandths(500).unwrap());
    assert_eq!(smoothed, (105, 155, 205));

    let smoothed = smooth_colors(current_colors, new_colors, SmoothingFactor::from_thousandths(0).unwrap());
    assert_eq!(smoothed, (110, 160, 210));

    let smoothed = smooth_colors(current_colors, new_colors, SmoothingFactor::from_thousandths(1000).unwrap());
    assert_eq!(smoothed, (100, 150, 200));
}

#[test]
fn uniform_frame_every_region_every_stride() {
    let frame = rgb_frame(9, 7, [12, 200, 77]);
    let regions = [Region::Top, Region::Bottom, Region::Left, Region::Right, Region::Full];
    for region in regions {
        for stride in 1..5 {
            for policy in [ExclusionPolicy::IncludeAll, ExclusionPolicy::ExcludeBlack] {
                assert_eq!(aggregate(&frame, region, stride, policy), [12, 200, 77]);
            }
        }
    }
}

#[test]
fn black_frame_excluded_gives_black() {
    let frame = rgb_frame(6, 6, [0, 0, 0]);
    for region in [Region::Top, Region::Bottom, Region::Left, Region::Right, Region::Full] {
        assert_eq!(aggregate(&frame, region, 1, ExclusionPolicy::ExcludeBlack), [0, 0, 0]);
        assert_eq!(aggregate(&frame, region, 2, ExclusionPolicy::IncludeAll), [0, 0, 0]);
    }
}

#[test]
fn mean_is_truncated_and_black_is_left_out() {
    // Two pixels in one row: (10, 20, 31) and black.
    let frame = Frame {
        width: 2,
        height: 1,
        format: PixelFormat::Rgb,
        data: vec![10, 20, 31, 0, 0, 0],
    };
    assert_eq!(aggregate(&frame, Region::Full, 1, ExclusionPolicy::ExcludeBlack), [10, 20, 31]);
    assert_eq!(aggregate(&frame, Region::Full, 1, ExclusionPolicy::IncludeAll), [5, 10, 15]);
}

#[test]
fn stride_skips_pixels_in_both_axes() {
    // 3x3 frame; only (0,0), (2,0), (0,2), (2,2) are sampled at stride 2.
    let mut data = vec![100u8; 27];
    for (x, y) in [(0usize, 0usize), (2, 0), (0, 2), (2, 2)] {
        let i = (y * 3 + x) * 3;
        data[i] = 8;
        data[i + 1] = 4;
        data[i + 2] = 2;
    }
    let frame = Frame { width: 3, height: 3, format: PixelFormat::Rgb, data };
    assert_eq!(aggregate(&frame, Region::Full, 2, ExclusionPolicy::IncludeAll), [8, 4, 2]);
    assert_eq!(aggregate(&frame, Region::Full, 1, ExclusionPolicy::IncludeAll), [59, 57, 56]);
}

#[test]
fn transparent_pixels_are_left_out() {
    let frame = Frame {
        width: 2,
        height: 1,
        format: PixelFormat::Rgba,
        data: vec![200, 100, 50, 0, 40, 60, 80, 255],
    };
    assert_eq!(aggregate(&frame, Region::Full, 1, ExclusionPolicy::ExcludeBlack), [40, 60, 80]);
    assert_eq!(aggregate(&frame, Region::Full, 1, ExclusionPolicy::IncludeAll), [120, 80, 65]);
}

#[test]
fn regions_split_the_frame_in_thirds() {
    // 3x3 frame, each row its own color.
    let mut data = Vec::new();
    for row in [[30u8, 0, 0], [0, 60, 0], [0, 0, 90]] {
        for _ in 0..3 {
            data.extend_from_slice(&row);
        }
    }
    let frame = Frame { width: 3, height: 3, format: PixelFormat::Rgb, data };
    assert_eq!(aggregate(&frame, Region::Top, 1, ExclusionPolicy::IncludeAll), [30, 0, 0]);
    assert_eq!(aggregate(&frame, Region::Bottom, 1, ExclusionPolicy::IncludeAll), [0, 0, 90]);
    assert_eq!(aggregate(&frame, Region::Left, 1, ExclusionPolicy::IncludeAll), [10, 20, 30]);
    assert_eq!(aggregate(&frame, Region::Right, 1, ExclusionPolicy::IncludeAll), [10, 20, 30]);
}

#[test]
fn empty_region_gives_black() {
    // With one row, the top third holds no row at all.
    let frame = rgb_frame(4, 1, [9, 9, 9]);
    assert_eq!(aggregate(&frame, Region::Top, 1, ExclusionPolicy::IncludeAll), [0, 0, 0]);
    assert_eq!(aggregate(&frame, Region::Bottom, 1, ExclusionPolicy::IncludeAll), [9, 9, 9]);
}

#[test]
fn frame_new_checks_buffer_length() {
    assert!(Frame::new(2, 2, PixelFormat::Rgb, vec![0; 12]).is_some());
    assert!(Frame::new(2, 2, PixelFormat::Rgba, vec![0; 12]).is_none());
    assert!(Frame::new(usize::MAX, 2, PixelFormat::Rgb, vec![0; 12]).is_none());
    assert!(!mock_frame(3, 3, 1).data.is_empty());
}

#[test]
fn smoothing_exact_values() {
    assert_eq!(smooth_colors((0, 0, 0), [255, 255, 255], alpha(1, 2)), (127, 127, 127));
    assert_eq!(smooth_colors((10, 20, 30), [40, 50, 60], alpha(1, 3)), (30, 40, 50));
    assert_eq!(smooth_colors((u32::MAX, 0, 7), [u32::MAX, 0, 7], alpha(3, 7)), (u32::MAX, 0, 7));
}

#[test]
fn smoothing_factor_rejects_out_of_range() {
    assert!(SmoothingFactor::new(3, 2).is_none());
    assert!(SmoothingFactor::new(0, 0).is_none());
    assert!(SmoothingFactor::from_thousandths(1001).is_none());
    assert_eq!(SmoothingFactor::from_thousandths(250), Some(SmoothingFactor { weight: 250, scale: 1000 }));
}
