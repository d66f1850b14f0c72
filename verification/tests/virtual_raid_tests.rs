use fr_engine::raid::{ParityRotation, RaidError, RaidLayout, RaidLevel, RaidMetadataFamily};
use fr_engine::virtual_raid::{
    compute_virtual_raid_logical_size, finish_virtual_raid_layout, validate_virtual_raid_members,
    virtual_raid_assembly_size, virtual_raid_copy_at, virtual_raid_layout_from_prefix, RaidCopy,
};

const KIB: u64 = 1024;
const MIB: u64 = 1024 * 1024;

fn layout(level: RaidLevel, members: u32, stripe: u32, data_offset: u64) -> RaidLayout {
    RaidLayout {
        metadata_family: RaidMetadataFamily::LinuxMd,
        level,
        member_count: members,
        stripe_size_bytes: stripe,
        data_offset_bytes: data_offset,
        parity_rotation: ParityRotation::LeftSymmetric,
        disk_order: (0..members).collect(),
        confidence_score: 80,
    }
}

#[test]
fn virtual_raid_members_must_be_two_to_thirty_two_distinct_sources() {
    assert_eq!(validate_virtual_raid_members(&[7, 9]), Ok(()));
    assert_eq!(validate_virtual_raid_members(&[7]), Err(142));
    assert_eq!(validate_virtual_raid_members(&[7, 9, 7]), Err(142));
    let many: Vec<u64> = (1..=33).collect();
    assert_eq!(validate_virtual_raid_members(&many), Err(142));
    assert_eq!(validate_virtual_raid_members(&many[..32]), Ok(()));
}

#[test]
fn virtual_raid_logical_size_per_level() {
    let sizes = [MIB + 4 * KIB + 100, 2 * MIB, 3 * MIB, 4 * MIB];
    // Smallest usable member: 1 MiB + 100 bytes, 1 MiB in whole 64 KiB stripes.
    let raid0 = layout(RaidLevel::Raid0, 2, 64 * KIB as u32, 4 * KIB);
    assert_eq!(compute_virtual_raid_logical_size(&raid0, &sizes[..2]), Ok(2 * MIB));
    let raid1 = layout(RaidLevel::Raid1, 2, 64 * KIB as u32, 4 * KIB);
    assert_eq!(compute_virtual_raid_logical_size(&raid1, &sizes[..2]), Ok(MIB + 100));
    let raid5 = layout(RaidLevel::Raid5, 3, 64 * KIB as u32, 4 * KIB);
    assert_eq!(compute_virtual_raid_logical_size(&raid5, &sizes[..3]), Ok(2 * MIB));
    let raid10 = layout(RaidLevel::Raid10, 4, 64 * KIB as u32, 4 * KIB);
    assert_eq!(compute_virtual_raid_logical_size(&raid10, &sizes), Ok(2 * MIB));
    let raid10_odd = layout(RaidLevel::Raid10, 3, 64 * KIB as u32, 4 * KIB);
    assert_eq!(compute_virtual_raid_logical_size(&raid10_odd, &sizes[..3]), Err(RaidError::UnsupportedLayout));
    let raid6 = layout(RaidLevel::Raid6, 4, 64 * KIB as u32, 4 * KIB);
    assert_eq!(compute_virtual_raid_logical_size(&raid6, &sizes), Err(RaidError::UnsupportedLayout));
}

#[test]
fn virtual_raid_logical_size_errors() {
    let raid0 = layout(RaidLevel::Raid0, 2, 64 * KIB as u32, 4 * KIB);
    assert_eq!(compute_virtual_raid_logical_size(&raid0, &[MIB]), Err(RaidError::InvalidMemberCount(2)));
    assert_eq!(
        compute_virtual_raid_logical_size(&raid0, &[MIB, 100]),
        Err(RaidError::BufferTooSmall { expected: 4096, actual: 100 })
    );
    let no_stripe = layout(RaidLevel::Raid0, 2, 0, 4 * KIB);
    assert_eq!(compute_virtual_raid_logical_size(&no_stripe, &[MIB, MIB]), Err(RaidError::InvalidStripeSize(0)));
    // A volume too small for one stripe cannot be assembled.
    assert_eq!(virtual_raid_assembly_size(&raid0, &[8 * KIB, 8 * KIB]), Err(141));
    assert_eq!(virtual_raid_assembly_size(&raid0, &[MIB, 100]), Err(141));
    assert_eq!(virtual_raid_assembly_size(&raid0, &[MIB + 4 * KIB, MIB + 4 * KIB]), Ok(2 * MIB));
}

#[test]
fn virtual_raid_copies_follow_the_stripes() {
    let raid0 = layout(RaidLevel::Raid0, 2, 64 * KIB as u32, 4 * KIB);
    let size = 2 * MIB;
    assert_eq!(
        virtual_raid_copy_at(&raid0, 2, size, 0),
        Ok(Some(RaidCopy { member_position: 0, member_offset_bytes: 4 * KIB, len: 64 * KIB as usize }))
    );
    assert_eq!(
        virtual_raid_copy_at(&raid0, 2, size, 64 * KIB),
        Ok(Some(RaidCopy { member_position: 1, member_offset_bytes: 4 * KIB, len: 64 * KIB as usize }))
    );
    assert_eq!(
        virtual_raid_copy_at(&raid0, 2, size, 128 * KIB),
        Ok(Some(RaidCopy { member_position: 0, member_offset_bytes: 68 * KIB, len: 64 * KIB as usize }))
    );
    assert_eq!(virtual_raid_copy_at(&raid0, 2, size, size), Ok(None));
    // The last piece is cut at the end of the volume.
    assert_eq!(virtual_raid_copy_at(&raid0, 2, size, size - 10).unwrap().unwrap().len, 10);
    // A member outside the ones given stops the assembly.
    assert_eq!(virtual_raid_copy_at(&raid0, 1, size, 64 * KIB), Err(141));
}

#[test]
fn virtual_raid_assembly_covers_the_volume() {
    let raid5 = layout(RaidLevel::Raid5, 3, 64 * KIB as u32, 0);
    let size = compute_virtual_raid_logical_size(&raid5, &[MIB, MIB, MIB]).unwrap();
    let mut offset = 0u64;
    let mut pieces = 0;
    while let Some(copy) = virtual_raid_copy_at(&raid5, 3, size, offset).unwrap() {
        assert!(copy.member_position < 3);
        offset += copy.len as u64;
        pieces += 1;
    }
    assert_eq!(offset, size);
    assert_eq!(pieces, size / (64 * KIB));
}

#[test]
fn virtual_raid_layout_needs_a_prefix_and_a_matching_member_count() {
    assert!(matches!(virtual_raid_layout_from_prefix(&[0u8; 100], None), Ok(None)));
    assert!(matches!(virtual_raid_layout_from_prefix(&vec![0u8; 8192], None), Ok(None)));
    assert_eq!(finish_virtual_raid_layout(None, 2).unwrap_err(), 140);
    let raid0 = layout(RaidLevel::Raid0, 2, 64 * KIB as u32, 0);
    assert_eq!(finish_virtual_raid_layout(Some(raid0.clone()), 3).unwrap_err(), 141);
    assert_eq!(finish_virtual_raid_layout(Some(raid0), 2).unwrap().member_count, 2);
}
