pub mod cl_utils;
pub mod vec_utils;
