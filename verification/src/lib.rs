//! A geometry-compression codec surface for 3D point clouds and meshes.
//!
//! Point data is staged through a [`pointcloud::PointCloudBuilder`], finalized
//! into an immutable [`pointcloud::PointCloud`] (optionally merging points with
//! identical attribute tuples), encoded into a compact byte buffer, and later
//! reconstructed from such a buffer.  Every operation that can fail reports a
//! [`status::DracoStatus`] instead of aborting.

pub mod codec;
pub mod decode;
pub mod encode;
pub mod mesh;
pub mod pointcloud;
pub mod status;
