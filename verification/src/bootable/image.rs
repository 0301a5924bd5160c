//! What kind of image a file is, told from a few of its bytes.

use vstd::prelude::*;

verus! {

#[derive(Debug, Clone, Copy, PartialEq, Eq, Structural)]
pub enum ImageKind {
    /// Carries its own boot record, with the boot signature at bytes 510 and
    /// 511: a byte-for-byte write gives a bootable drive.
    Hybrid,
    /// A plain ISO 9660 image without a boot record: its files have to be
    /// copied onto a formatted drive.
    OpticalOnly,
    /// Neither an ISO nor anything with a boot signature.
    Unknown,
}

#[derive(Debug, Clone, Copy, PartialEq, Eq, Structural)]
pub struct ImageInfo {
    pub size: u64,
    pub kind: ImageKind,
}

/// Where the primary volume descriptor of an ISO 9660 image starts.
pub const ISO_MAGIC_OFFSET: u64 = 32_768;

/// How many bytes the boot record has.
pub const HEAD_LEN: usize = 512;

/// How many bytes of the volume descriptor are looked at.
pub const DESCRIPTOR_LEN: usize = 6;

/// Whether an image starts with a boot record.
pub open spec fn has_boot_signature(image: Seq<u8>) -> bool {
    image.len() >= 512 && image[510] == 0x55 && image[511] == 0xAA
}

/// Whether an image has an ISO 9660 volume descriptor: type 1, then `CD001`.
pub open spec fn has_iso_descriptor(image: Seq<u8>) -> bool {
    image.len() >= 32_774 && image.subrange(32_768, 32_774) == seq![1u8, 67, 68, 48, 48, 49]
}

pub open spec fn kind_of(image: Seq<u8>) -> ImageKind {
    if has_boot_signature(image) {
        ImageKind::Hybrid
    } else if has_iso_descriptor(image) {
        ImageKind::OpticalOnly
    } else {
        ImageKind::Unknown
    }
}

/// The bytes `image[from..to]`, or none when the image ends before `to`.
pub open spec fn window(image: Seq<u8>, from: int, to: int) -> Seq<u8> {
    if image.len() >= to {
        image.subrange(from, to)
    } else {
        Seq::empty()
    }
}

/// Whether every image with these bytes at its two places is of this kind.
pub open spec fn suits_images(head: Seq<u8>, descriptor: Seq<u8>, kind: ImageKind) -> bool {
    forall|image: Seq<u8>|
        head == #[trigger] window(image, 0, 512) && descriptor == window(image, 32_768, 32_774)
            ==> kind == kind_of(image)
}

/// Tells the kind of an image from its first `HEAD_LEN` bytes and the
/// `DESCRIPTOR_LEN` bytes at `ISO_MAGIC_OFFSET`; either is empty when the
/// image is too short to have it.
pub fn analyze_image(size: u64, head: &[u8], descriptor: &[u8]) -> (info: ImageInfo)
    ensures
        info.size == size,
        forall|image: Seq<u8>|
            head@ == #[trigger] window(image, 0, 512) && descriptor@ == window(
                image,
                32_768,
                32_774,
            ) ==> info.kind == kind_of(image),
        suits_images(head@, descriptor@, info.kind),
{
    let boot_signature = head.len() == HEAD_LEN && head[510] == 0x55 && head[511] == 0xAA;
    let is_iso = descriptor.len() == DESCRIPTOR_LEN && descriptor[0] == 1 && descriptor[1] == 67
        && descriptor[2] == 68 && descriptor[3] == 48 && descriptor[4] == 48 && descriptor[5] == 49;
    let kind = if boot_signature {
        ImageKind::Hybrid
    } else if is_iso {
        ImageKind::OpticalOnly
    } else {
        ImageKind::Unknown
    };
    proof {
        assert forall|image: Seq<u8>|
            head@ == #[trigger] window(image, 0, 512) && descriptor@ == window(
                image,
                32_768,
                32_774,
            ) implies kind == kind_of(image) by {
            assert(boot_signature == has_boot_signature(image));
            let magic = seq![1u8, 67, 68, 48, 48, 49];
            if is_iso {
                assert(descriptor@ =~= magic);
            }
            assert(is_iso == (descriptor@ == magic));
        }
    }
    ImageInfo { size, kind }
}

/// An image is told by its marks alone, whatever its size: one with a boot
/// signature at the end of its first sector can be written as it is, and one
/// without it but with the mark of an ISO 9660 volume cannot.
pub proof fn law_image_is_told_by_its_marks(
    image: Seq<u8>,
    size: u64,
    head: &[u8],
    descriptor: &[u8],
    info: ImageInfo,
)
    requires
        head@ == window(image, 0, 512),
        descriptor@ == window(image, 32_768, 32_774),
        call_ensures(analyze_image, (size, head, descriptor), info),
    ensures
        info.size == size,
        ({
            let boots = image.len() >= 512 && image[510] == 0x55 && image[511] == 0xAA;
            let iso = image.len() >= 32_774 && image[32_768] == 1 && image[32_769] == 67
                && image[32_770] == 68 && image[32_771] == 48 && image[32_772] == 48
                && image[32_773] == 49;
            &&& info.kind is Hybrid <==> boots
            &&& info.kind is OpticalOnly <==> iso && !boots
            &&& info.kind is Unknown <==> !iso && !boots
        }),
{
    if image.len() >= 32_774 {
        let d = image.subrange(32_768, 32_774);
        let magic = seq![1u8, 67, 68, 48, 48, 49];
        assert(d[0] == image[32_768] && d[1] == image[32_769] && d[2] == image[32_770] && d[3]
            == image[32_771] && d[4] == image[32_772] && d[5] == image[32_773]);
        if image[32_768] == 1 && image[32_769] == 67 && image[32_770] == 68 && image[32_771] == 48
            && image[32_772] == 48 && image[32_773] == 49 {
            assert(d =~= magic);
        }
        if d == magic {
            assert(d[0] == magic[0] && d[1] == magic[1] && d[2] == magic[2] && d[3] == magic[3]
                && d[4] == magic[4] && d[5] == magic[5]);
        }
    }
}

} // verus!
