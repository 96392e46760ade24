pub mod git_client;
