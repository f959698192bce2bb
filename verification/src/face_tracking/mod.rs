pub mod calibration;
pub mod ft_mirror;
pub mod osc;
pub mod profile_name;
