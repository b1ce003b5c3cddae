pub mod resource_manager;
