use livox_mid360::encode::{
    check_input, child_bounds, flatten_tokens, group_by_segment, octant_index, point_segments,
    segment_count, segment_index, segment_path, token_count, EncodeError, FLOATS_PER_SEGMENT, MAX_ROUNDS,
    MIN_ROUNDS,
};

type Vec3 = [f64; 3];

fn midpoint(min: Vec3, max: Vec3) -> Vec3 {
    [
        (min[0] + max[0]) / 2.0,
        (min[1] + max[1]) / 2.0,
        (min[2] + max[2]) / 2.0,
    ]
}

fn octant(p: &Vec3, mid: &Vec3) -> usize {
    octant_index(p[0] >= mid[0], p[1] >= mid[1], p[2] >= mid[2])
}

/// Encodes a cloud in its axis-aligned bounding box.
fn encode(cloud: &[Vec3], rounds: u8) -> Result<Vec<f32>, EncodeError> {
    check_input(cloud.len(), rounds)?;
    let mut lo = cloud[0];
    let mut hi = cloud[0];
    for p in cloud {
        for k in 0..3 {
            lo[k] = lo[k].min(p[k]);
            hi[k] = hi[k].max(p[k]);
        }
    }
    let paths: Vec<Vec<usize>> = cloud
        .iter()
        .map(|p| {
            let (mut min, mut max) = (lo, hi);
            let mut path = Vec::new();
            for _ in 0..rounds {
                let mid = midpoint(min, max);
                let index = octant(p, &mid);
                path.push(index);
                (min, max) = child_bounds(min, mid, max, index);
            }
            path
        })
        .collect();
    let segments = point_segments(&paths, rounds);
    let groups = group_by_segment(&segments, rounds);
    let mut tokens = Vec::new();
    for (segment, group) in groups.iter().enumerate() {
        let (mut min, mut max) = (lo, hi);
        for index in segment_path(segment, rounds) {
            (min, max) = child_bounds(min, midpoint(min, max), max, index);
        }
        let mut token = [group.len() as f32 / cloud.len() as f32, 0.0, 0.0, 0.0];
        if !group.is_empty() {
            for k in 0..3 {
                let mean = group.iter().map(|i| cloud[*i][k]).sum::<f64>() / group.len() as f64;
                let extent = max[k] - min[k];
                if extent > 0.0 {
                    token[k + 1] = (2.0 * (mean - min[k]) / extent - 1.0) as f32;
                }
            }
        }
        tokens.push(token);
    }
    Ok(flatten_tokens(&tokens))
}

fn fractions(tokens: &[f32]) -> impl Iterator<Item = f32> + '_ {
    tokens.iter().step_by(FLOATS_PER_SEGMENT).copied()
}

#[test]
fn rejects_empty_cloud() {
    assert!(matches!(encode(&[], 1), Err(EncodeError::EmptyCloud)));
}

#[test]
fn rejects_out_of_range_rounds() {
    let cloud = [[0.0, 0.0, 0.0]];
    assert!(matches!(encode(&cloud, 0), Err(EncodeError::InvalidRounds(0))));
    assert!(matches!(encode(&cloud, 6), Err(EncodeError::InvalidRounds(6))));
}

#[test]
fn produces_4_times_8_to_the_n_floats() {
    let cloud = [[0.0, 0.0, 0.0], [1.0, 1.0, 1.0], [2.0, 0.0, 1.0]];
    for rounds in MIN_ROUNDS..=MAX_ROUNDS {
        let tokens = encode(&cloud, rounds).unwrap();
        assert_eq!(tokens.len(), FLOATS_PER_SEGMENT * 8usize.pow(rounds as u32));
        assert_eq!(tokens.len(), token_count(rounds));
    }
}

#[test]
fn fractions_sum_to_one() {
    let cloud = [
        [0.0, 0.0, 0.0],
        [1.0, 2.0, 3.0],
        [-1.0, 0.5, 2.0],
        [4.0, -3.0, 1.0],
    ];
    for rounds in MIN_ROUNDS..=MAX_ROUNDS {
        let tokens = encode(&cloud, rounds).unwrap();
        let sum: f32 = fractions(&tokens).sum();
        assert!((sum - 1.0).abs() < 1e-5, "rounds {rounds}: sum {sum}");
    }
}

#[test]
fn octant_order_matches_specification() {
    let mid = [0.0, 0.0, 0.0];
    let cases = [
        ([-1.0, -1.0, -1.0], 0), // left_down_back
        ([1.0, -1.0, -1.0], 1),  // right_down_back
        ([-1.0, -1.0, 1.0], 2),  // left_down_front
        ([1.0, -1.0, 1.0], 3),   // right_down_front
        ([-1.0, 1.0, -1.0], 4),  // left_up_back
        ([1.0, 1.0, -1.0], 5),   // right_up_back
        ([-1.0, 1.0, 1.0], 6),   // left_up_front
        ([1.0, 1.0, 1.0], 7),    // right_up_front
    ];
    for (point, expected) in cases {
        assert_eq!(octant(&point, &mid), expected);
    }
}

#[test]
fn segment_fractions_and_centroids() {
    let cloud = [[0.0, 0.0, 0.0], [2.0, 0.0, 0.0]];
    let tokens = encode(&cloud, 1).unwrap();
    // (0,0,0) -> left_up_front (6), (2,0,0) -> right_up_front (7). Each
    // point sits exactly at its segment's left/right corner, so the
    // normalized centroid x is -1 / +1.
    assert_eq!(&tokens[24..28], &[0.5, -1.0, 0.0, 0.0]);
    assert_eq!(&tokens[28..32], &[0.5, 1.0, 0.0, 0.0]);
    // Empty segment (left_down_back) falls back to its geometric center,
    // which is the origin of the normalized per-segment frame.
    assert_eq!(&tokens[0..4], &[0.0, 0.0, 0.0, 0.0]);
}

#[test]
fn centroid_is_normalized_to_its_segment() {
    let cloud = [[0.0, 0.0, 0.0], [0.5, 0.0, 0.0], [2.0, 0.0, 0.0]];
    let tokens = encode(&cloud, 1).unwrap();
    // The first two share left_up_front (6): local mean x = -0.75 in a
    // segment spanning [-1, 0] -> normalized -0.5.
    assert_eq!(&tokens[24..28], &[2.0 / 3.0, -0.5, 0.0, 0.0]);
    assert_eq!(&tokens[28..32], &[1.0 / 3.0, 1.0, 0.0, 0.0]);
}

#[test]
fn recursion_nests_segments_in_octant_order() {
    // Same geometry as above, one level deeper: each point lands on the
    // up/front edge of its parent octant, so the child index repeats.
    let cloud = [[0.0, 0.0, 0.0], [2.0, 0.0, 0.0]];
    let tokens = encode(&cloud, 2).unwrap();

    assert_eq!(tokens.len(), FLOATS_PER_SEGMENT * 64);
    assert_eq!(&tokens[6 * 32 + 24..6 * 32 + 28], &[0.5, -1.0, 0.0, 0.0]);
    assert_eq!(&tokens[7 * 32 + 28..7 * 32 + 32], &[0.5, 1.0, 0.0, 0.0]);
}

#[test]
fn error_messages() {
    assert_eq!(EncodeError::EmptyCloud.message(), "cannot encode an empty point cloud");
    assert_eq!(
        EncodeError::InvalidRounds(6).message(),
        "rounds must be between 1 and 5, got 6"
    );
}

#[test]
fn bounds_of_children() {
    let (min, mid, max) = ([0, 1, 2], [10, 11, 12], [20, 21, 22]);
    assert_eq!(child_bounds(min, mid, max, 0), ([0, 1, 2], [10, 11, 12]));
    assert_eq!(child_bounds(min, mid, max, 1), ([10, 1, 2], [20, 11, 12]));
    assert_eq!(child_bounds(min, mid, max, 2), ([0, 1, 12], [10, 11, 22]));
    assert_eq!(child_bounds(min, mid, max, 4), ([0, 11, 2], [10, 21, 12]));
    assert_eq!(child_bounds(min, mid, max, 7), ([10, 11, 12], [20, 21, 22]));
}

#[test]
fn paths_lead_to_segments_and_back() {
    assert_eq!(segment_count(0), 1);
    assert_eq!(segment_count(5), 32768);
    assert_eq!(segment_index(&[6, 7]), 55);
    assert_eq!(segment_path(55, 2), vec![6, 7]);
    for segment in 0..512 {
        assert_eq!(segment_index(&segment_path(segment, 3)), segment);
    }
    assert_eq!(segment_index(&[2, 1, 5]), 2 * 64 + segment_index(&[1, 5]));
}

#[test]
fn groups_keep_the_order_and_every_point() {
    let groups = group_by_segment(&[3, 0, 3, 7, 3], 1);
    assert_eq!(groups.len(), 8);
    assert_eq!(groups[0], vec![1]);
    assert_eq!(groups[3], vec![0, 2, 4]);
    assert_eq!(groups[7], vec![3]);
    assert_eq!(groups.iter().map(|g| g.len()).sum::<usize>(), 5);
}

#[test]
fn a_segment_is_shared_among_its_children() {
    let cloud = [
        [0.0, 0.0, 0.0],
        [1.0, 2.0, 3.0],
        [1.5, 2.0, 3.0],
        [-1.0, 0.5, 2.0],
        [4.0, -3.0, 1.0],
    ];
    for rounds in MIN_ROUNDS..MAX_ROUNDS {
        let coarse: Vec<f32> = fractions(&encode(&cloud, rounds).unwrap()).collect();
        let fine: Vec<f32> = fractions(&encode(&cloud, rounds + 1).unwrap()).collect();
        for (i, share) in coarse.iter().enumerate() {
            let sum: f32 = fine[8 * i..8 * i + 8].iter().sum();
            assert!((sum - share).abs() < 1e-5, "rounds {rounds}, segment {i}");
        }
    }
    let paths = [vec![0, 0], vec![1, 1], vec![7, 7], vec![1, 7], vec![1, 1]];
    let (coarse, fine) = (point_segments(&paths, 1), point_segments(&paths, 2));
    assert_eq!(coarse, vec![0, 1, 7, 1, 1]);
    assert_eq!(fine, vec![0, 9, 63, 15, 9]);
    let (a, b) = (group_by_segment(&coarse, 1), group_by_segment(&fine, 2));
    for i in 0..8 {
        assert_eq!(a[i].len(), b[8 * i..8 * i + 8].iter().map(Vec::len).sum::<usize>());
    }
    assert_eq!(a[1], vec![1, 3, 4]);
}
