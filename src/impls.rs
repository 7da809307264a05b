pub mod ch04_two_layer_net;
