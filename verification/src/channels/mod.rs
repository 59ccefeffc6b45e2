pub mod email;
pub mod feishu;
pub mod telegram;
