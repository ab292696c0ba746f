use fractal_image::image::Coords;
use fractal_image::image::Size;
use fractal_image::model::Block;
use fractal_image::model::Compressed;
use fractal_image::model::Rotation;
use fractal_image::model::Saturation;
use fractal_image::model::Transformation;
use fractal_image::persistence::binary_v1::deserialize;
use fractal_image::persistence::binary_v1::serialize;
use fractal_image::persistence::binary_v1::DeserializationError;
use fractal_image::persistence::binary_v1::SerializationError;

fn sample_transformation() -> Transformation {
    Transformation {
        range: Block {
            block_size: 16,
            origin: Coords { x: 1, y: 2 },
        },
        domain: Block {
            block_size: 32,
            origin: Coords { x: 3, y: 4 },
        },
        rotation: Rotation::By0,
        brightness: 5,
        saturation: Saturation { bits: 6.7f64.to_bits() },
    }
}

#[test]
fn block_get_indices() {
    //  0   1   2   3   4   5   6   7   8   9
    // 10  11  12  13  14  15  16  17  18  19
    // 20  21  22  23  24  25  26  27  28  29
    // 30  31  32  33  34  35  36  37  38  39
    // 40  41  42  43  44  45  46  47  48  49
    // 50  51  52  53  54  55  56  57  58  59
    // 60  61  62  63  64  65  66  67  68  69
    // 70  71  72  73  74  75  76  77  78  79
    // 80  81  82  83  84  85  86  87  88  89
    // 90  91  92  93  94  95  96  97  98  99

    let block = Block {
        block_size: 3,
        origin: Coords { x: 2, y: 3 },
    };

    assert_eq!(
        vec![
            (32, Coords { x: 2, y: 3 }),
            (33, Coords { x: 3, y: 3 }),
            (34, Coords { x: 4, y: 3 }),
            (42, Coords { x: 2, y: 4 }),
            (43, Coords { x: 3, y: 4 }),
            (44, Coords { x: 4, y: 4 }),
            (52, Coords { x: 2, y: 5 }),
            (53, Coords { x: 3, y: 5 }),
            (54, Coords { x: 4, y: 5 })
        ],
        block.indices(10, 10)
    );
}

#[test]
fn rotation_codes_round_trip() {
    assert_eq!(Rotation::from_code(0), Ok(Rotation::By0));
    assert_eq!(Rotation::from_code(1), Ok(Rotation::By90));
    assert_eq!(Rotation::from_code(2), Ok(Rotation::By180));
    assert_eq!(Rotation::from_code(3), Ok(Rotation::By270));
    for rot in [Rotation::By0, Rotation::By90, Rotation::By180, Rotation::By270] {
        assert_eq!(Rotation::from_code(rot.to_code()), Ok(rot));
    }
    for code in 4..=255u8 {
        assert!(Rotation::from_code(code).is_err());
    }
}

#[test]
fn checked_rejects_non_contractive_saturation() {
    let t = sample_transformation();
    let admitted = Transformation::checked(
        t.range,
        t.domain,
        t.rotation,
        t.brightness,
        Saturation { bits: 1.0f64.to_bits() },
    );
    assert!(admitted.is_some());
    assert_eq!(
        Transformation::checked(
            t.range,
            t.domain,
            t.rotation,
            t.brightness,
            Saturation { bits: (-0.25f64).to_bits() },
        ),
        Some(Transformation {
            saturation: Saturation { bits: (-0.25f64).to_bits() },
            ..t
        })
    );
    assert_eq!(
        Transformation::checked(
            t.range,
            t.domain,
            t.rotation,
            t.brightness,
            Saturation { bits: 1.0000001f64.to_bits() },
        ),
        None
    );
    assert_eq!(
        Transformation::checked(
            t.range,
            t.domain,
            t.rotation,
            t.brightness,
            Saturation { bits: f64::NAN.to_bits() },
        ),
        None
    );
}

#[test]
fn binary_v1_no_transformations() {
    let compressed = Compressed {
        size: Size::new(123, 456),
        transformations: vec![],
    };

    let serialized = serialize(&compressed).unwrap();
    let deserialized = deserialize(&serialized).unwrap();
    assert_eq!(deserialized.size, Size::new(123, 456));
    assert!(deserialized.transformations.is_empty())
}

#[test]
fn qfic_v1_no_transformations() {
    let compressed = Compressed {
        size: Size::new(123, 456),
        transformations: vec![],
    };

    let serialized = serialize(&compressed).unwrap();
    let deserialized = deserialize(&serialized).unwrap();
    assert_eq!(deserialized.size, Size::new(123, 456));
    assert!(deserialized.transformations.is_empty())
}

#[test]
fn one_transformation() {
    let transformation = sample_transformation();
    let compressed = Compressed {
        size: Size::new(123, 456),
        transformations: vec![transformation],
    };

    let serialized = serialize(&compressed).unwrap();
    let deserialized = deserialize(&serialized).unwrap();
    assert_eq!(deserialized.size, Size::new(123, 456));
    assert_eq!(deserialized.transformations.len(), 1);
    assert_eq!(deserialized.transformations[0], transformation);
}

#[test]
fn multiple_transformations_round_trip_as_a_set() {
    let mut t_16_1 = sample_transformation();
    t_16_1.range.block_size = 16;
    t_16_1.domain.block_size = 32;
    let mut t_16_2 = sample_transformation();
    t_16_2.range.block_size = 16;
    t_16_2.domain.block_size = 32;
    t_16_2.brightness = 77;
    let mut t_32_1 = sample_transformation();
    t_32_1.range.block_size = 32;
    t_32_1.domain.block_size = 64;
    let original = vec![t_16_1, t_16_2, t_32_1];
    let compressed = Compressed {
        size: Size::new(123, 456),
        transformations: original.clone(),
    };

    let serialized = serialize(&compressed).unwrap();
    let deserialized = deserialize(&serialized).unwrap();
    assert_eq!(deserialized.size, Size::new(123, 456));
    assert_eq!(deserialized.transformations.len(), 3);
    for t in &original {
        let in_original = original.iter().filter(|u| *u == t).count();
        let in_round_trip = deserialized
            .transformations
            .iter()
            .filter(|u| *u == t)
            .count();
        assert_eq!(in_original, in_round_trip);
    }
}

#[test]
fn serializing_a_mismatched_domain_size_fails() {
    let mut transformation = sample_transformation();
    transformation.domain.block_size *= 2;
    let compressed = Compressed {
        size: Size::new(123, 456),
        transformations: vec![transformation],
    };

    assert_eq!(
        serialize(&compressed),
        Err(SerializationError::InvalidBlockSize {
            range_size: 16,
            domain_size: 64,
        })
    );
}

#[test]
fn deserializing_an_unknown_rotation_fails() {
    let good = Compressed {
        size: Size::new(8, 8),
        transformations: vec![Transformation {
            range: Block {
                block_size: 2,
                origin: Coords { x: 0, y: 0 },
            },
            domain: Block {
                block_size: 4,
                origin: Coords { x: 0, y: 0 },
            },
            rotation: Rotation::By0,
            brightness: 0,
            saturation: Saturation { bits: 0 },
        }],
    };
    let mut bytes = serialize(&good).unwrap();
    // the rotation byte of the first entry sits after the header (8 bytes),
    // the group header (8 bytes) and the four origin words (16 bytes)
    bytes[8 + 8 + 16] = 7;
    let result = deserialize(&bytes);
    match result {
        Err(DeserializationError::InvalidRotation(err)) => {
            assert_eq!(err.code, 7);
        }
        other => panic!("expected an invalid rotation, got {:?}", other),
    }
}

#[test]
fn deserializing_a_truncated_group_fails() {
    let compressed = Compressed {
        size: Size::new(8, 8),
        transformations: vec![sample_transformation()],
    };
    let bytes = serialize(&compressed).unwrap();
    let truncated = &bytes[..bytes.len() - 5];
    match deserialize(truncated) {
        Err(err) => assert_eq!(err, DeserializationError::UnexpectedEof),
        Ok(_) => panic!("a truncated stream must be rejected"),
    }
}

#[test]
fn get_indices() {
    let block = Block {
        block_size: 3,
        origin: Coords { x: 2, y: 3 },
    };

    assert_eq!(
        vec![
            (32, Coords { x: 2, y: 3 }),
            (33, Coords { x: 3, y: 3 }),
            (34, Coords { x: 4, y: 3 }),
            (42, Coords { x: 2, y: 4 }),
            (43, Coords { x: 3, y: 4 }),
            (44, Coords { x: 4, y: 4 }),
            (52, Coords { x: 2, y: 5 }),
            (53, Coords { x: 3, y: 5 }),
            (54, Coords { x: 4, y: 5 })
        ],
        block.indices(10, 10)
    );
}
